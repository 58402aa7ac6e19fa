//! Dependency graph
//!
//! Triggers and effects are the nodes. A trigger has an edge to each effect
//! that gathered it as a dependency, and an effect has an edge to each
//! trigger it executed. Parallel edges are kept, one per gathering or
//! execution.

use vstd::prelude::*;
use std::collections::HashMap;
use petgraph::stable_graph::{StableGraph, NodeIndex, EdgeIndex};
use petgraph::visit::EdgeRef;
use petgraph::{Directed, Direction};
use crate::loc::{Loc, loc_text};

verus! {

broadcast use vstd::std_specs::hash::group_hash_axioms;

/// Effect dependency info
#[derive(PartialEq, Eq, Clone, Copy, Debug)]
pub struct EffectDepInfo {
    /// Location this dependency was gathered
    pub gathered_loc: Loc,
}

/// Effect subscriber info
#[derive(PartialEq, Eq, Clone, Copy, Debug)]
pub struct EffectSubInfo {
    /// Location this subscriber was executed
    pub exec_loc: Loc,
}

/// Graph node: a trigger or an effect, by id.
#[derive(PartialEq, Eq, Clone, Copy, Debug, Structural)]
pub enum Node {
    Trigger(u64),
    Effect(u64),
}

/// Graph edge
#[derive(Clone, Copy, Debug)]
pub enum Edge {
    /// Effect dependency (trigger to effect)
    EffectDep(EffectDepInfo),
    /// Effect subscriber (effect to trigger)
    EffectSub(EffectSubInfo),
}

impl Edge {
    /// Creates an effect dependency edge
    pub fn effect_dep(gathered_loc: Loc) -> (res: Self)
        ensures
            res == Edge::EffectDep(EffectDepInfo { gathered_loc }),
    {
        Edge::EffectDep(EffectDepInfo { gathered_loc })
    }

    /// Creates an effect subscriber edge
    pub fn effect_sub(exec_loc: Loc) -> (res: Self)
        ensures
            res == Edge::EffectSub(EffectSubInfo { exec_loc }),
    {
        Edge::EffectSub(EffectSubInfo { exec_loc })
    }
}

/// Direction of the edges to follow from a node.
#[derive(PartialEq, Eq, Clone, Copy, Debug, Structural)]
pub enum Dir {
    Outgoing,
    Incoming,
}

#[verifier::external_type_specification]
#[verifier::external_body]
#[verifier::reject_recursive_types(N)]
#[verifier::reject_recursive_types(E)]
#[verifier::reject_recursive_types(Ty)]
#[verifier::reject_recursive_types(Ix)]
pub struct ExStableGraph<N, E, Ty, Ix>(StableGraph<N, E, Ty, Ix>);

#[verifier::external_type_specification]
#[verifier::external_body]
pub struct ExDirected(Directed);

/// The graph type
pub type Graph = StableGraph<Node, Edge>;

/// An edge of the graph: its index, endpoints (node indices) and weight.
pub struct GraphEdge {
    pub id: u32,
    pub source: u32,
    pub target: u32,
    pub weight: Edge,
}

/// The graph's nodes: node index to weight.
pub uninterp spec fn graph_nodes(g: Graph) -> Map<u32, Node>;

/// The graph's live edges, by index.
pub uninterp spec fn graph_edge_map(g: Graph) -> Map<u32, GraphEdge>;

/// The indices of the edges in the list that node `a` keeps for direction
/// `dir` (its outgoing or its incoming edges), in list order: the edge added
/// last comes first.
pub uninterp spec fn graph_adj(g: Graph, a: u32, dir: Dir) -> Seq<u32>;

/// No edges.
pub open spec fn no_edges() -> Map<u32, GraphEdge> {
    Map::empty()
}

/// Far ends of the edges of indices `ids`, in the order of `ids`.
pub open spec fn far_of(map: Map<u32, GraphEdge>, ids: Seq<u32>, dir: Dir) -> Seq<u32> {
    ids.map_values(|i: u32| idx_far(map[i], dir))
}

/// Weights of the edges of indices `ids` whose target is `b`, in the order
/// of `ids`.
pub open spec fn weights_to(map: Map<u32, GraphEdge>, ids: Seq<u32>, b: u32) -> Seq<Edge>
    decreases ids.len(),
{
    if ids.len() == 0 {
        Seq::empty()
    } else {
        let rest = weights_to(map, ids.drop_first(), b);
        if map[ids.first()].target == b {
            seq![map[ids.first()].weight] + rest
        } else {
            rest
        }
    }
}

/// `ids` without `id`, the others in their order.
pub open spec fn remove_val(ids: Seq<u32>, id: u32) -> Seq<u32>
    decreases ids.len(),
{
    if ids.len() == 0 {
        ids
    } else {
        let rest = remove_val(ids.drop_first(), id);
        if ids.first() == id {
            rest
        } else {
            seq![ids.first()] + rest
        }
    }
}

/// The edge lists of `old`'s nodes are the same in `new`.
pub open spec fn adj_kept(old: Graph, new: Graph) -> bool {
    forall|n: u32, d: Dir| graph_nodes(old).contains_key(n) ==> #[trigger] graph_adj(new, n, d) == graph_adj(old, n, d)
}

/// Node `a`'s edge lists are empty.
pub open spec fn adj_empty(g: Graph, a: u32) -> bool {
    forall|d: Dir| #[trigger] graph_adj(g, a, d) == Seq::<u32>::empty()
}

/// `new`'s edge lists are `old`'s, with edge `e` put first in the outgoing
/// list of its source and the incoming list of its target.
pub open spec fn adj_added(old: Graph, new: Graph, e: GraphEdge) -> bool {
    forall|n: u32, d: Dir| graph_nodes(old).contains_key(n) ==> #[trigger] graph_adj(new, n, d) == (if idx_matches(e, n, d) {
        seq![e.id] + graph_adj(old, n, d)
    } else {
        graph_adj(old, n, d)
    })
}

/// `new`'s edge lists are `old`'s, without edge index `id`.
pub open spec fn adj_removed(old: Graph, new: Graph, id: u32) -> bool {
    forall|n: u32, d: Dir| graph_nodes(old).contains_key(n) ==> #[trigger] graph_adj(new, n, d) == remove_val(graph_adj(old, n, d), id)
}

/// Every edge of `edges` is in `map`, under its index.
pub open spec fn map_holds(map: Map<u32, GraphEdge>, edges: Seq<GraphEdge>) -> bool {
    forall|k: int| 0 <= k < edges.len() ==> map.contains_key((#[trigger] edges[k]).id) && map[edges[k].id] == edges[k]
}

/// `edges` lists the live edges of `g`, one entry per edge, and each node's
/// edge lists hold its edges latest first.
pub open spec fn graph_agrees(g: Graph, edges: Seq<GraphEdge>) -> bool {
    let map = graph_edge_map(g);
    &&& map.dom().finite()
    &&& map.dom().len() == edges.len()
    &&& map_holds(map, edges)
    &&& forall|id: u32| #[trigger] map.contains_key(id) ==> has_id(edges, id)
    &&& forall|a: u32, d: Dir| graph_nodes(g).contains_key(a) ==> #[trigger] graph_adj(g, a, d) == idx_edge_ids(edges, a, d)
}

// ---------------------------------------------------------------------------
// Specifications over edge indices

pub open spec fn idx_matches(e: GraphEdge, a: u32, dir: Dir) -> bool {
    match dir {
        Dir::Outgoing => e.source == a,
        Dir::Incoming => e.target == a,
    }
}

pub open spec fn idx_far(e: GraphEdge, dir: Dir) -> u32 {
    match dir {
        Dir::Outgoing => e.target,
        Dir::Incoming => e.source,
    }
}

/// Far ends of the edges at `a` in direction `dir`, most recently added first.
pub open spec fn idx_far_ends(edges: Seq<GraphEdge>, a: u32, dir: Dir) -> Seq<u32>
    decreases edges.len(),
{
    if edges.len() == 0 {
        Seq::empty()
    } else {
        let rest = idx_far_ends(edges.drop_last(), a, dir);
        if idx_matches(edges.last(), a, dir) {
            seq![idx_far(edges.last(), dir)] + rest
        } else {
            rest
        }
    }
}

/// Indices of the edges at `a` in direction `dir`, most recently added first.
pub open spec fn idx_edge_ids(edges: Seq<GraphEdge>, a: u32, dir: Dir) -> Seq<u32>
    decreases edges.len(),
{
    if edges.len() == 0 {
        Seq::empty()
    } else {
        let rest = idx_edge_ids(edges.drop_last(), a, dir);
        if idx_matches(edges.last(), a, dir) {
            seq![edges.last().id] + rest
        } else {
            rest
        }
    }
}

/// Weights of the edges from `a` to `b`, most recently added first.
pub open spec fn idx_weights_between(edges: Seq<GraphEdge>, a: u32, b: u32) -> Seq<Edge>
    decreases edges.len(),
{
    if edges.len() == 0 {
        Seq::empty()
    } else {
        let rest = idx_weights_between(edges.drop_last(), a, b);
        if edges.last().source == a && edges.last().target == b {
            seq![edges.last().weight] + rest
        } else {
            rest
        }
    }
}

/// Whether some edge has index `id`.
pub open spec fn has_id(edges: Seq<GraphEdge>, id: u32) -> bool {
    exists|k: int| 0 <= k < edges.len() && #[trigger] edges[k].id == id
}

/// Edge indices are distinct.
pub open spec fn unique_ids(edges: Seq<GraphEdge>) -> bool {
    forall|i: int, j: int| 0 <= i < edges.len() && 0 <= j < edges.len() && #[trigger] edges[i].id == #[trigger] edges[j].id ==> i == j
}

/// `edges` without the edges of index `id`.
pub open spec fn remove_id(edges: Seq<GraphEdge>, id: u32) -> Seq<GraphEdge>
    decreases edges.len(),
{
    if edges.len() == 0 {
        edges
    } else if edges.last().id == id {
        remove_id(edges.drop_last(), id)
    } else {
        remove_id(edges.drop_last(), id).push(edges.last())
    }
}

/// `edges` without the edges that touch node index `a`.
pub open spec fn idx_without(edges: Seq<GraphEdge>, a: u32) -> Seq<GraphEdge>
    decreases edges.len(),
{
    if edges.len() == 0 {
        edges
    } else if edges.last().source == a || edges.last().target == a {
        idx_without(edges.drop_last(), a)
    } else {
        idx_without(edges.drop_last(), a).push(edges.last())
    }
}

// ---------------------------------------------------------------------------
// Specifications over nodes

/// An edge between two nodes.
pub struct Link {
    pub source: Node,
    pub target: Node,
    pub weight: Edge,
}

pub open spec fn link_of(nodes: Map<u32, Node>, e: GraphEdge) -> Link {
    Link { source: nodes[e.source], target: nodes[e.target], weight: e.weight }
}

pub open spec fn links_of(nodes: Map<u32, Node>, edges: Seq<GraphEdge>) -> Seq<Link> {
    edges.map_values(|e: GraphEdge| link_of(nodes, e))
}

pub open spec fn link_matches(l: Link, n: Node, dir: Dir) -> bool {
    match dir {
        Dir::Outgoing => l.source == n,
        Dir::Incoming => l.target == n,
    }
}

pub open spec fn link_far(l: Link, dir: Dir) -> Node {
    match dir {
        Dir::Outgoing => l.target,
        Dir::Incoming => l.source,
    }
}

/// Far ends of the links at `n` in direction `dir`, most recently added first,
/// once per link.
pub open spec fn far_ends(links: Seq<Link>, n: Node, dir: Dir) -> Seq<Node>
    decreases links.len(),
{
    if links.len() == 0 {
        Seq::empty()
    } else {
        let rest = far_ends(links.drop_last(), n, dir);
        if link_matches(links.last(), n, dir) {
            seq![link_far(links.last(), dir)] + rest
        } else {
            rest
        }
    }
}

/// Weights of the links from `a` to `b`, most recently added first.
pub open spec fn weights_between(links: Seq<Link>, a: Node, b: Node) -> Seq<Edge>
    decreases links.len(),
{
    if links.len() == 0 {
        Seq::empty()
    } else {
        let rest = weights_between(links.drop_last(), a, b);
        if links.last().source == a && links.last().target == b {
            seq![links.last().weight] + rest
        } else {
            rest
        }
    }
}

/// `links` without the links that touch `n`.
pub open spec fn links_without(links: Seq<Link>, n: Node) -> Seq<Link>
    decreases links.len(),
{
    if links.len() == 0 {
        links
    } else if links.last().source == n || links.last().target == n {
        links_without(links.drop_last(), n)
    } else {
        links_without(links.drop_last(), n).push(links.last())
    }
}

/// Link kinds agree with their endpoints: dependencies go from a trigger to an
/// effect, subscribers from an effect to a trigger.
pub open spec fn link_well_kinded(l: Link) -> bool {
    match l.weight {
        Edge::EffectDep(_) => l.source is Trigger && l.target is Effect,
        Edge::EffectSub(_) => l.source is Effect && l.target is Trigger,
    }
}

/// A graph without nodes.
pub open spec fn no_nodes() -> Map<u32, Node> {
    Map::empty()
}

// ---------------------------------------------------------------------------
// Trusted wrappers around `StableGraph`

/// Calls `StableGraph::new`: no nodes, no edges.
#[verifier::external_body]
fn graph_new() -> (g: Graph)
    ensures
        graph_nodes(g) == no_nodes(),
        graph_edge_map(g) == no_edges(),
{
    StableGraph::new()
}

/// Calls `StableGraph::add_node`, which panics only when the index type is
/// exhausted. The new node gets an index not in use, and empty edge lists.
#[verifier::external_body]
fn graph_add_node(g: &mut Graph, weight: Node) -> (idx: u32)
    requires
        graph_nodes(*old(g)).dom().len() < u32::MAX,
    ensures
        !graph_nodes(*old(g)).contains_key(idx),
        graph_nodes(*final(g)) == graph_nodes(*old(g)).insert(idx, weight),
        graph_edge_map(*final(g)) == graph_edge_map(*old(g)),
        adj_kept(*old(g), *final(g)),
        adj_empty(*final(g), idx),
{
    g.add_node(weight).index() as u32
}

/// Calls `StableGraph::add_edge`, which panics when an endpoint is missing or
/// the index type is exhausted. The new edge gets an index not in use (a
/// freed one may be reused) and goes first in the outgoing list of `a` and
/// the incoming list of `b`.
#[verifier::external_body]
fn graph_add_edge(g: &mut Graph, a: u32, b: u32, weight: Edge) -> (id: u32)
    requires
        graph_nodes(*old(g)).contains_key(a),
        graph_nodes(*old(g)).contains_key(b),
        graph_edge_map(*old(g)).dom().len() < u32::MAX,
    ensures
        !graph_edge_map(*old(g)).contains_key(id),
        graph_nodes(*final(g)) == graph_nodes(*old(g)),
        graph_edge_map(*final(g)) == graph_edge_map(*old(g)).insert(id, GraphEdge { id, source: a, target: b, weight }),
        adj_added(*old(g), *final(g), GraphEdge { id, source: a, target: b, weight }),
{
    g.add_edge(NodeIndex::new(a as usize), NodeIndex::new(b as usize), weight).index() as u32
}

/// Calls `StableGraph::remove_edge`: removes the edge of index `id`, if any,
/// from the edges and from its endpoints' lists (the others keep their
/// order), and returns its weight.
#[verifier::external_body]
fn graph_remove_edge(g: &mut Graph, id: u32) -> (res: Option<Edge>)
    ensures
        res == (if graph_edge_map(*old(g)).contains_key(id) { Some(graph_edge_map(*old(g))[id].weight) } else { None }),
        graph_nodes(*final(g)) == graph_nodes(*old(g)),
        graph_edge_map(*final(g)) == graph_edge_map(*old(g)).remove(id),
        adj_removed(*old(g), *final(g), id),
{
    g.remove_edge(EdgeIndex::new(id as usize))
}

/// Calls `StableGraph::node_count`: the number of nodes.
#[verifier::external_body]
fn graph_node_count(g: &Graph) -> (res: usize)
    ensures
        res == graph_nodes(*g).dom().len(),
{
    g.node_count()
}

/// The label of a node: its kind and where it was defined, or `<dropped>`
/// when it is missing from the locations given (it no longer exists).
pub open spec fn node_label(n: Node, trigger_locs: Map<u64, Loc>, effect_locs: Map<u64, Loc>) -> Seq<char> {
    match n {
        Node::Trigger(t) => "Trigger("@ + (if trigger_locs.contains_key(t) {
            loc_text(trigger_locs[t])
        } else {
            "<dropped>"@
        }) + ")"@,
        Node::Effect(e) => "Effect("@ + (if effect_locs.contains_key(e) {
            loc_text(effect_locs[e])
        } else {
            "<dropped>"@
        }) + ")"@,
    }
}

/// The label of an edge: its kind and where it was gathered or executed.
pub open spec fn edge_label(w: Edge) -> Seq<char> {
    match w {
        Edge::EffectDep(i) => "Gather("@ + loc_text(i.gathered_loc) + ")"@,
        Edge::EffectSub(i) => "Exec("@ + loc_text(i.exec_loc) + ")"@,
    }
}

/// Writes the label of a node.
fn node_label_text(n: &Node, trigger_locs: &HashMap<u64, Loc>, effect_locs: &HashMap<u64, Loc>) -> (res: String)
    ensures
        res@ == node_label(*n, trigger_locs@, effect_locs@),
{
    let (mut s, loc) = match *n {
        Node::Trigger(t) => (String::from_str("Trigger("), trigger_locs.get(&t)),
        Node::Effect(e) => (String::from_str("Effect("), effect_locs.get(&e)),
    };
    match loc {
        Some(l) => {
            let text = l.text();
            s.append(text.as_str());
        },
        None => {
            s.append("<dropped>");
        },
    }
    s.append(")");
    s
}

/// Writes the label of an edge.
fn edge_label_text(w: &Edge) -> (res: String)
    ensures
        res@ == edge_label(*w),
{
    let (mut s, loc) = match *w {
        Edge::EffectDep(i) => (String::from_str("Gather("), i.gathered_loc),
        Edge::EffectSub(i) => (String::from_str("Exec("), i.exec_loc),
    };
    let text = loc.text();
    s.append(text.as_str());
    s.append(")");
    s
}

/// Name for the graphviz text that `petgraph::dot::Dot` writes, through its
/// `Display` form, for a graph with these node labels (by node index) and
/// these edges (by edge index: source, target and label).
pub uninterp spec fn dot_text(nodes: Map<u32, Seq<char>>, edges: Map<u32, (u32, u32, Seq<char>)>) -> Seq<char>;

/// The labelled form of a graph's nodes.
pub open spec fn node_labels(g: Graph, trigger_locs: Map<u64, Loc>, effect_locs: Map<u64, Loc>) -> Map<u32, Seq<char>> {
    graph_nodes(g).map_values(|n: Node| node_label(n, trigger_locs, effect_locs))
}

/// The labelled form of a graph's edges.
pub open spec fn edge_labels(g: Graph) -> Map<u32, (u32, u32, Seq<char>)> {
    graph_edge_map(g).map_values(|e: GraphEdge| (e.source, e.target, edge_label(e.weight)))
}

/// Labels the graph's nodes and edges with `StableGraph::map` (same indices,
/// each weight through the verified labelling functions) and writes the
/// result in graphviz dot format with `petgraph::dot::Dot`. What it writes
/// is named, not stated: `dot_text` of the labelled nodes and edges.
#[verifier::external_body]
fn graph_dot(g: &Graph, trigger_locs: &HashMap<u64, Loc>, effect_locs: &HashMap<u64, Loc>) -> (res: String)
    ensures
        res@ == dot_text(node_labels(*g, trigger_locs@, effect_locs@), edge_labels(*g)),
{
    let labelled = g.map(|_, n| node_label_text(n, trigger_locs, effect_locs), |_, w| edge_label_text(w));
    format!("{}", petgraph::dot::Dot::new(&labelled))
}

/// Calls `StableGraph::edge_count`: the number of edges.
#[verifier::external_body]
fn graph_edge_count(g: &Graph) -> (res: usize)
    ensures
        res == graph_edge_map(*g).dom().len(),
{
    g.edge_count()
}

/// Calls `StableGraph::node_weight`.
#[verifier::external_body]
fn graph_node_weight(g: &Graph, a: u32) -> (res: Option<Node>)
    ensures
        res == (if graph_nodes(*g).contains_key(a) { Some(graph_nodes(*g)[a]) } else { None }),
{
    g.node_weight(NodeIndex::new(a as usize)).copied()
}

/// Calls `StableGraph::neighbors_directed`: the far ends of the edges in
/// `a`'s list for direction `dir`, in list order (nothing for a missing node).
#[verifier::external_body]
fn graph_neighbors(g: &Graph, a: u32, dir: Dir) -> (res: Vec<u32>)
    ensures
        graph_nodes(*g).contains_key(a) ==> res@ == far_of(graph_edge_map(*g), graph_adj(*g, a, dir), dir),
        !graph_nodes(*g).contains_key(a) ==> res@ == Seq::<u32>::empty(),
{
    let direction = match dir {
        Dir::Outgoing => Direction::Outgoing,
        Dir::Incoming => Direction::Incoming,
    };
    g.neighbors_directed(NodeIndex::new(a as usize), direction).map(|n| n.index() as u32).collect()
}

/// Calls `StableGraph::edges_directed`: the indices of the edges in `a`'s
/// list for direction `dir`, in list order (nothing for a missing node).
#[verifier::external_body]
fn graph_edge_ids(g: &Graph, a: u32, dir: Dir) -> (res: Vec<u32>)
    ensures
        graph_nodes(*g).contains_key(a) ==> res@ == graph_adj(*g, a, dir),
        !graph_nodes(*g).contains_key(a) ==> res@ == Seq::<u32>::empty(),
{
    let direction = match dir {
        Dir::Outgoing => Direction::Outgoing,
        Dir::Incoming => Direction::Incoming,
    };
    g.edges_directed(NodeIndex::new(a as usize), direction).map(|e| e.id().index() as u32).collect()
}

/// Calls `StableGraph::edges_connecting`: the weights of the edges in `a`'s
/// outgoing list whose target is `b`, in list order.
#[verifier::external_body]
fn graph_edges_connecting(g: &Graph, a: u32, b: u32) -> (res: Vec<Edge>)
    ensures
        graph_nodes(*g).contains_key(a) ==> res@ == weights_to(graph_edge_map(*g), graph_adj(*g, a, Dir::Outgoing), b),
{
    g.edges_connecting(NodeIndex::new(a as usize), NodeIndex::new(b as usize)).map(|e| *e.weight()).collect()
}

} // verus!

verus! {

// ---------------------------------------------------------------------------
// Lemmas on edge sequences

/// Every edge listed by `idx_edge_ids` is an edge at `a`.
proof fn lemma_edge_ids_sound(edges: Seq<GraphEdge>, a: u32, dir: Dir, j: int)
    requires
        0 <= j < idx_edge_ids(edges, a, dir).len(),
    ensures
        exists|m: int| 0 <= m < edges.len() && edges[m].id == idx_edge_ids(edges, a, dir)[j]
            && idx_matches(#[trigger] edges[m], a, dir),
    decreases edges.len(),
{
    let d = edges.drop_last();
    let ids = idx_edge_ids(edges, a, dir);
    let rest = idx_edge_ids(d, a, dir);
    if idx_matches(edges.last(), a, dir) {
        if j == 0 {
            assert(idx_matches(edges[edges.len() - 1], a, dir));
        } else {
            assert(ids[j] == rest[j - 1]);
            lemma_edge_ids_sound(d, a, dir, j - 1);
            let m = choose|m: int| 0 <= m < d.len() && d[m].id == rest[j - 1] && idx_matches(#[trigger] d[m], a, dir);
            assert(edges[m] == d[m]);
            assert(idx_matches(edges[m], a, dir));
        }
    } else {
        lemma_edge_ids_sound(d, a, dir, j);
        let m = choose|m: int| 0 <= m < d.len() && d[m].id == rest[j] && idx_matches(#[trigger] d[m], a, dir);
        assert(edges[m] == d[m]);
        assert(idx_matches(edges[m], a, dir));
    }
}

/// Every edge at `a` is listed by `idx_edge_ids`.
proof fn lemma_edge_ids_complete(edges: Seq<GraphEdge>, a: u32, dir: Dir)
    ensures
        forall|m: int| 0 <= m < edges.len() && idx_matches(#[trigger] edges[m], a, dir)
            ==> idx_edge_ids(edges, a, dir).contains(edges[m].id),
    decreases edges.len(),
{
    if edges.len() > 0 {
        let d = edges.drop_last();
        lemma_edge_ids_complete(d, a, dir);
        let ids = idx_edge_ids(edges, a, dir);
        let rest = idx_edge_ids(d, a, dir);
        assert forall|m: int| 0 <= m < edges.len() && idx_matches(#[trigger] edges[m], a, dir)
            implies ids.contains(edges[m].id) by {
            if m == edges.len() - 1 {
                assert(ids[0] == edges[m].id);
            } else {
                assert(d[m] == edges[m]);
                assert(rest.contains(d[m].id));
                let j = choose|j: int| 0 <= j < rest.len() && rest[j] == d[m].id;
                if idx_matches(edges.last(), a, dir) {
                    assert(ids[j + 1] == rest[j]);
                } else {
                    assert(ids[j] == rest[j]);
                }
            }
        }
    }
}

/// Every edge kept by `remove_id` comes from `edges`.
proof fn lemma_remove_id_members(edges: Seq<GraphEdge>, id: u32)
    ensures
        forall|k: int| 0 <= k < remove_id(edges, id).len() ==> exists|m: int|
            0 <= m < edges.len() && #[trigger] edges[m] == #[trigger] remove_id(edges, id)[k],
        forall|k: int| 0 <= k < remove_id(edges, id).len() ==> (#[trigger] remove_id(edges, id)[k]).id != id,
    decreases edges.len(),
{
    if edges.len() > 0 {
        let d = edges.drop_last();
        lemma_remove_id_members(d, id);
        let r = remove_id(edges, id);
        let rd = remove_id(d, id);
        assert forall|k: int| 0 <= k < r.len() implies exists|m: int|
            0 <= m < edges.len() && #[trigger] edges[m] == #[trigger] r[k] by {
            if edges.last().id != id && k == rd.len() {
                assert(edges[edges.len() - 1] == r[k]);
            } else {
                assert(r[k] == rd[k]);
                let m = choose|m: int| 0 <= m < d.len() && #[trigger] d[m] == rd[k];
                assert(edges[m] == d[m]);
            }
        }
        assert forall|k: int| 0 <= k < r.len() implies (#[trigger] r[k]).id != id by {
            if !(edges.last().id != id && k == rd.len()) {
                assert(r[k] == rd[k]);
            }
        }
    }
}

/// Every edge kept by `idx_without` comes from `edges` and does not touch `a`.
proof fn lemma_without_members(edges: Seq<GraphEdge>, a: u32)
    ensures
        forall|k: int| 0 <= k < idx_without(edges, a).len() ==> exists|m: int|
            0 <= m < edges.len() && #[trigger] edges[m] == #[trigger] idx_without(edges, a)[k],
        forall|k: int| 0 <= k < idx_without(edges, a).len() ==>
            (#[trigger] idx_without(edges, a)[k]).source != a && idx_without(edges, a)[k].target != a,
        idx_without(edges, a).len() <= edges.len(),
    decreases edges.len(),
{
    if edges.len() > 0 {
        let d = edges.drop_last();
        lemma_without_members(d, a);
        let r = idx_without(edges, a);
        let rd = idx_without(d, a);
        let keeps = !(edges.last().source == a || edges.last().target == a);
        assert forall|k: int| 0 <= k < r.len() implies exists|m: int|
            0 <= m < edges.len() && #[trigger] edges[m] == #[trigger] r[k] by {
            if keeps && k == rd.len() {
                assert(edges[edges.len() - 1] == r[k]);
            } else {
                assert(r[k] == rd[k]);
                let m = choose|m: int| 0 <= m < d.len() && #[trigger] d[m] == rd[k];
                assert(edges[m] == d[m]);
            }
        }
        assert forall|k: int| 0 <= k < r.len() implies (#[trigger] r[k]).source != a && r[k].target != a by {
            if !(keeps && k == rd.len()) {
                assert(r[k] == rd[k]);
            }
        }
    }
}

/// Removing edges that all touch `a` leaves the edges not touching `a` as they were.
proof fn lemma_without_remove_id(edges: Seq<GraphEdge>, a: u32, id: u32)
    requires
        forall|k: int| 0 <= k < edges.len() && (#[trigger] edges[k]).id == id ==> edges[k].source == a || edges[k].target == a,
    ensures
        idx_without(remove_id(edges, id), a) == idx_without(edges, a),
    decreases edges.len(),
{
    if edges.len() > 0 {
        let d = edges.drop_last();
        assert forall|k: int| 0 <= k < d.len() && (#[trigger] d[k]).id == id implies d[k].source == a || d[k].target == a by {
            assert(d[k] == edges[k]);
        }
        lemma_without_remove_id(d, a, id);
        if edges.last().id != id {
            let r = remove_id(d, id).push(edges.last());
            assert(r.drop_last() =~= remove_id(d, id));
            assert(r.last() == edges.last());
        }
    }
}

/// Without edges touching `a`, `idx_without` changes nothing.
proof fn lemma_without_none_touching(edges: Seq<GraphEdge>, a: u32)
    requires
        forall|k: int| 0 <= k < edges.len() ==> (#[trigger] edges[k]).source != a && edges[k].target != a,
    ensures
        idx_without(edges, a) == edges,
    decreases edges.len(),
{
    if edges.len() > 0 {
        let d = edges.drop_last();
        assert forall|k: int| 0 <= k < d.len() implies (#[trigger] d[k]).source != a && d[k].target != a by {
            assert(d[k] == edges[k]);
        }
        lemma_without_none_touching(d, a);
        assert(d.push(edges.last()) =~= edges);
    }
}

/// A sequence of distinct ids stays distinct after appending a new one.
proof fn lemma_unique_push(edges: Seq<GraphEdge>, e: GraphEdge)
    requires
        unique_ids(edges),
        !has_id(edges, e.id),
    ensures
        unique_ids(edges.push(e)),
{
    let p = edges.push(e);
    assert forall|i: int, j: int| 0 <= i < p.len() && 0 <= j < p.len() && #[trigger] p[i].id == #[trigger] p[j].id implies i == j by {
        if i < edges.len() && j < edges.len() {
            assert(p[i] == edges[i] && p[j] == edges[j]);
        } else if i < edges.len() {
            assert(p[i] == edges[i]);
            assert(edges[i].id == e.id);
        } else if j < edges.len() {
            assert(p[j] == edges[j]);
            assert(edges[j].id == e.id);
        }
    }
}

/// Dropping the edges touching `a` keeps ids distinct.
proof fn lemma_without_unique(edges: Seq<GraphEdge>, a: u32)
    requires
        unique_ids(edges),
    ensures
        unique_ids(idx_without(edges, a)),
    decreases edges.len(),
{
    if edges.len() > 0 {
        let d = edges.drop_last();
        assert(unique_ids(d)) by {
            assert forall|i: int, j: int| 0 <= i < d.len() && 0 <= j < d.len() && #[trigger] d[i].id == #[trigger] d[j].id implies i == j by {
                assert(d[i] == edges[i] && d[j] == edges[j]);
            }
        }
        lemma_without_unique(d, a);
        if !(edges.last().source == a || edges.last().target == a) {
            lemma_without_members(d, a);
            let rd = idx_without(d, a);
            assert(!has_id(rd, edges.last().id)) by {
                if has_id(rd, edges.last().id) {
                    let k = choose|k: int| 0 <= k < rd.len() && #[trigger] rd[k].id == edges.last().id;
                    let m = choose|m: int| 0 <= m < d.len() && #[trigger] d[m] == rd[k];
                    assert(edges[m] == d[m]);
                    assert(edges[m].id == edges[edges.len() - 1].id);
                }
            }
            lemma_unique_push(rd, edges.last());
        }
    }
}

/// Ids stay distinct when the last edge is dropped.
proof fn lemma_unique_drop_last(edges: Seq<GraphEdge>)
    requires
        unique_ids(edges),
        edges.len() > 0,
    ensures
        unique_ids(edges.drop_last()),
{
    let d = edges.drop_last();
    assert forall|i: int, j: int| 0 <= i < d.len() && 0 <= j < d.len() && #[trigger] d[i].id == #[trigger] d[j].id implies i == j by {
        assert(d[i] == edges[i] && d[j] == edges[j]);
    }
}

/// Removing the edges of index `id` keeps ids distinct.
proof fn lemma_remove_unique(edges: Seq<GraphEdge>, id: u32)
    requires
        unique_ids(edges),
    ensures
        unique_ids(remove_id(edges, id)),
    decreases edges.len(),
{
    if edges.len() > 0 {
        let d = edges.drop_last();
        lemma_unique_drop_last(edges);
        lemma_remove_unique(d, id);
        if edges.last().id != id {
            lemma_remove_id_members(d, id);
            let rd = remove_id(d, id);
            assert(!has_id(rd, edges.last().id)) by {
                if has_id(rd, edges.last().id) {
                    let k = choose|k: int| 0 <= k < rd.len() && #[trigger] rd[k].id == edges.last().id;
                    let m = choose|m: int| 0 <= m < d.len() && #[trigger] d[m] == #[trigger] rd[k];
                    assert(edges[m] == d[m]);
                    assert(edges[m].id == edges[edges.len() - 1].id);
                }
            }
            lemma_unique_push(rd, edges.last());
        }
    }
}

/// With distinct ids, removing a present index drops one edge, and removing
/// an absent one changes nothing.
proof fn lemma_remove_len(edges: Seq<GraphEdge>, id: u32)
    requires
        unique_ids(edges),
    ensures
        has_id(edges, id) ==> remove_id(edges, id).len() == edges.len() - 1,
        !has_id(edges, id) ==> remove_id(edges, id) == edges,
    decreases edges.len(),
{
    if edges.len() > 0 {
        let d = edges.drop_last();
        let e = edges.last();
        lemma_unique_drop_last(edges);
        lemma_remove_len(d, id);
        if e.id == id {
            assert(!has_id(d, id)) by {
                if has_id(d, id) {
                    let k = choose|k: int| 0 <= k < d.len() && #[trigger] d[k].id == id;
                    assert(edges[k] == d[k]);
                    assert(edges[k].id == edges[edges.len() - 1].id);
                }
            }
            assert(edges[edges.len() - 1].id == id);
        } else if has_id(edges, id) {
            let k = choose|k: int| 0 <= k < edges.len() && #[trigger] edges[k].id == id;
            assert(k != edges.len() - 1);
            assert(d[k] == edges[k]);
            assert(has_id(d, id));
        } else {
            assert(!has_id(d, id)) by {
                if has_id(d, id) {
                    let k = choose|k: int| 0 <= k < d.len() && #[trigger] d[k].id == id;
                    assert(edges[k] == d[k]);
                }
            }
            assert(d.push(e) =~= edges);
        }
    }
}

/// Removing the edges of index `id` keeps every edge of another index.
proof fn lemma_remove_id_complete(edges: Seq<GraphEdge>, id: u32)
    ensures
        forall|m: int| 0 <= m < edges.len() && (#[trigger] edges[m]).id != id ==> has_id(remove_id(edges, id), edges[m].id),
    decreases edges.len(),
{
    if edges.len() > 0 {
        let d = edges.drop_last();
        let e = edges.last();
        lemma_remove_id_complete(d, id);
        let r = remove_id(edges, id);
        let rd = remove_id(d, id);
        assert forall|m: int| 0 <= m < edges.len() && (#[trigger] edges[m]).id != id implies has_id(r, edges[m].id) by {
            if m == edges.len() - 1 {
                assert(r == rd.push(e));
                assert(r[rd.len() as int] == edges[m]);
            } else {
                assert(d[m] == edges[m]);
                assert(has_id(rd, d[m].id));
                let k = choose|k: int| 0 <= k < rd.len() && #[trigger] rd[k].id == d[m].id;
                if e.id != id {
                    assert(r[k] == rd[k]);
                }
            }
        }
    }
}

/// Listing the edges of index other than `id` at `a` is listing them all and
/// leaving `id` out.
proof fn lemma_remove_val(edges: Seq<GraphEdge>, id: u32, a: u32, dir: Dir)
    ensures
        idx_edge_ids(remove_id(edges, id), a, dir) == remove_val(idx_edge_ids(edges, a, dir), id),
    decreases edges.len(),
{
    if edges.len() > 0 {
        let d = edges.drop_last();
        let e = edges.last();
        lemma_remove_val(d, id, a, dir);
        let rest = idx_edge_ids(d, a, dir);
        if idx_matches(e, a, dir) {
            let ids = seq![e.id] + rest;
            assert(ids.first() == e.id);
            assert(ids.drop_first() =~= rest);
        }
        if e.id != id {
            let r = remove_id(d, id).push(e);
            assert(r.drop_last() =~= remove_id(d, id));
            assert(r.last() == e);
        }
    }
}

/// No edge at `a` in direction `dir`: nothing is listed.
proof fn lemma_no_edges_at(edges: Seq<GraphEdge>, a: u32, dir: Dir)
    requires
        forall|k: int| 0 <= k < edges.len() ==> !idx_matches(#[trigger] edges[k], a, dir),
    ensures
        idx_edge_ids(edges, a, dir) == Seq::<u32>::empty(),
    decreases edges.len(),
{
    if edges.len() > 0 {
        let d = edges.drop_last();
        assert forall|k: int| 0 <= k < d.len() implies !idx_matches(#[trigger] d[k], a, dir) by {
            assert(d[k] == edges[k]);
        }
        lemma_no_edges_at(d, a, dir);
        assert(!idx_matches(edges[edges.len() - 1], a, dir));
    }
}

proof fn lemma_map_holds_drop_last(map: Map<u32, GraphEdge>, edges: Seq<GraphEdge>)
    requires
        map_holds(map, edges),
        edges.len() > 0,
    ensures
        map_holds(map, edges.drop_last()),
        map.contains_key(edges.last().id),
        map[edges.last().id] == edges.last(),
{
    let d = edges.drop_last();
    assert forall|k: int| 0 <= k < d.len() implies map.contains_key((#[trigger] d[k]).id) && map[d[k].id] == d[k] by {
        assert(d[k] == edges[k]);
    }
    assert(edges.last() == edges[edges.len() - 1]);
}

/// The far ends of the listed edges are those `idx_far_ends` gives.
proof fn lemma_far_of(map: Map<u32, GraphEdge>, edges: Seq<GraphEdge>, a: u32, dir: Dir)
    requires
        map_holds(map, edges),
    ensures
        far_of(map, idx_edge_ids(edges, a, dir), dir) == idx_far_ends(edges, a, dir),
    decreases edges.len(),
{
    if edges.len() > 0 {
        let d = edges.drop_last();
        lemma_map_holds_drop_last(map, edges);
        lemma_far_of(map, d, a, dir);
        let rest = idx_edge_ids(d, a, dir);
        if idx_matches(edges.last(), a, dir) {
            let ids = seq![edges.last().id] + rest;
            assert(far_of(map, ids, dir) =~= seq![idx_far(edges.last(), dir)] + far_of(map, rest, dir));
        }
    } else {
        assert(far_of(map, Seq::<u32>::empty(), dir) =~= Seq::<u32>::empty());
    }
}

/// The weights of the listed outgoing edges that end at `b` are those
/// `idx_weights_between` gives.
proof fn lemma_weights_to(map: Map<u32, GraphEdge>, edges: Seq<GraphEdge>, a: u32, b: u32)
    requires
        map_holds(map, edges),
    ensures
        weights_to(map, idx_edge_ids(edges, a, Dir::Outgoing), b) == idx_weights_between(edges, a, b),
    decreases edges.len(),
{
    if edges.len() > 0 {
        let d = edges.drop_last();
        lemma_map_holds_drop_last(map, edges);
        lemma_weights_to(map, d, a, b);
        let rest = idx_edge_ids(d, a, Dir::Outgoing);
        if edges.last().source == a {
            let ids = seq![edges.last().id] + rest;
            assert(ids.first() == edges.last().id);
            assert(ids.drop_first() =~= rest);
        }
    }
}

/// A new node without edges keeps the graph in agreement with `edges`.
proof fn lemma_agrees_add_node(old_g: Graph, new_g: Graph, edges: Seq<GraphEdge>, idx: u32)
    requires
        graph_agrees(old_g, edges),
        endpoints_in(graph_nodes(old_g), edges),
        !graph_nodes(old_g).contains_key(idx),
        graph_nodes(new_g).dom() == graph_nodes(old_g).dom().insert(idx),
        graph_edge_map(new_g) == graph_edge_map(old_g),
        adj_kept(old_g, new_g),
        adj_empty(new_g, idx),
    ensures
        graph_agrees(new_g, edges),
{
    assert forall|a: u32, d: Dir| graph_nodes(new_g).contains_key(a) implies #[trigger] graph_adj(new_g, a, d) == idx_edge_ids(edges, a, d) by {
        if a == idx {
            assert forall|k: int| 0 <= k < edges.len() implies !idx_matches(#[trigger] edges[k], a, d) by {
                assert(graph_nodes(old_g).contains_key(edges[k].source) && graph_nodes(old_g).contains_key(edges[k].target));
            }
            lemma_no_edges_at(edges, a, d);
        } else {
            assert(graph_nodes(old_g).dom().contains(a));
            assert(graph_adj(new_g, a, d) == graph_adj(old_g, a, d));
        }
    }
}

/// A new edge, appended to `edges`, keeps the graph in agreement with them.
proof fn lemma_agrees_add_edge(old_g: Graph, new_g: Graph, edges: Seq<GraphEdge>, e: GraphEdge)
    requires
        graph_agrees(old_g, edges),
        unique_ids(edges),
        !graph_edge_map(old_g).contains_key(e.id),
        graph_nodes(new_g) == graph_nodes(old_g),
        graph_edge_map(new_g) == graph_edge_map(old_g).insert(e.id, e),
        adj_added(old_g, new_g, e),
    ensures
        graph_agrees(new_g, edges.push(e)),
        unique_ids(edges.push(e)),
{
    let m0 = graph_edge_map(old_g);
    let m1 = graph_edge_map(new_g);
    let p = edges.push(e);
    assert(!has_id(edges, e.id)) by {
        if has_id(edges, e.id) {
            let k = choose|k: int| 0 <= k < edges.len() && #[trigger] edges[k].id == e.id;
            assert(m0.contains_key(edges[k].id));
        }
    }
    lemma_unique_push(edges, e);
    assert(m1.dom() =~= m0.dom().insert(e.id));
    assert forall|k: int| 0 <= k < p.len() implies m1.contains_key((#[trigger] p[k]).id) && m1[p[k].id] == p[k] by {
        if k < edges.len() {
            assert(p[k] == edges[k]);
            assert(m0.contains_key(edges[k].id));
        }
    }
    assert forall|id: u32| #[trigger] m1.contains_key(id) implies has_id(p, id) by {
        if id == e.id {
            assert(p[edges.len() as int].id == id);
        } else {
            assert(m0.contains_key(id));
            let k = choose|k: int| 0 <= k < edges.len() && #[trigger] edges[k].id == id;
            assert(p[k] == edges[k]);
        }
    }
    assert forall|a: u32, d: Dir| graph_nodes(new_g).contains_key(a) implies #[trigger] graph_adj(new_g, a, d) == idx_edge_ids(p, a, d) by {
        assert(p.drop_last() =~= edges);
        assert(p.last() == e);
        assert(graph_nodes(old_g).contains_key(a));
    }
}

/// Removing an edge index keeps the graph in agreement with `edges` without it.
proof fn lemma_agrees_remove(old_g: Graph, new_g: Graph, edges: Seq<GraphEdge>, id: u32)
    requires
        graph_agrees(old_g, edges),
        unique_ids(edges),
        graph_nodes(new_g) == graph_nodes(old_g),
        graph_edge_map(new_g) == graph_edge_map(old_g).remove(id),
        adj_removed(old_g, new_g, id),
    ensures
        graph_agrees(new_g, remove_id(edges, id)),
        unique_ids(remove_id(edges, id)),
{
    let m0 = graph_edge_map(old_g);
    let m1 = graph_edge_map(new_g);
    let r = remove_id(edges, id);
    lemma_remove_len(edges, id);
    lemma_remove_unique(edges, id);
    lemma_remove_id_members(edges, id);
    lemma_remove_id_complete(edges, id);
    assert(m1.dom() =~= m0.dom().remove(id));
    if has_id(edges, id) {
        let k = choose|k: int| 0 <= k < edges.len() && #[trigger] edges[k].id == id;
        assert(m0.contains_key(edges[k].id));
    }
    assert forall|k: int| 0 <= k < r.len() implies m1.contains_key((#[trigger] r[k]).id) && m1[r[k].id] == r[k] by {
        let m = choose|m: int| 0 <= m < edges.len() && #[trigger] edges[m] == #[trigger] r[k];
        assert(m0.contains_key(edges[m].id));
    }
    assert forall|x: u32| #[trigger] m1.contains_key(x) implies has_id(r, x) by {
        assert(m0.contains_key(x));
        let m = choose|m: int| 0 <= m < edges.len() && #[trigger] edges[m].id == x;
        assert(edges[m].id != id);
    }
    assert forall|a: u32, d: Dir| graph_nodes(new_g).contains_key(a) implies #[trigger] graph_adj(new_g, a, d) == idx_edge_ids(r, a, d) by {
        lemma_remove_val(edges, id, a, d);
    }
}

} // verus!

verus! {

// ---------------------------------------------------------------------------
// From edge indices to nodes

/// Every endpoint is a node.
pub open spec fn endpoints_in(nodes: Map<u32, Node>, edges: Seq<GraphEdge>) -> bool {
    forall|k: int| 0 <= k < edges.len() ==> nodes.contains_key((#[trigger] edges[k]).source) && nodes.contains_key(edges[k].target)
}

/// No two node indices hold the same node.
pub open spec fn injective(nodes: Map<u32, Node>) -> bool {
    forall|i: u32, j: u32| nodes.contains_key(i) && nodes.contains_key(j) && #[trigger] nodes[i] == #[trigger] nodes[j] ==> i == j
}

proof fn lemma_links_drop_last(nodes: Map<u32, Node>, edges: Seq<GraphEdge>)
    requires
        edges.len() > 0,
    ensures
        links_of(nodes, edges).drop_last() == links_of(nodes, edges.drop_last()),
        links_of(nodes, edges).last() == link_of(nodes, edges.last()),
{
    assert(links_of(nodes, edges).drop_last() =~= links_of(nodes, edges.drop_last()));
}

proof fn lemma_endpoints_drop_last(nodes: Map<u32, Node>, edges: Seq<GraphEdge>)
    requires
        edges.len() > 0,
        endpoints_in(nodes, edges),
    ensures
        endpoints_in(nodes, edges.drop_last()),
        nodes.contains_key(edges.last().source),
        nodes.contains_key(edges.last().target),
{
    let d = edges.drop_last();
    assert forall|k: int| 0 <= k < d.len() implies nodes.contains_key((#[trigger] d[k]).source) && nodes.contains_key(d[k].target) by {
        assert(d[k] == edges[k]);
    }
    assert(edges.last() == edges[edges.len() - 1]);
}

proof fn lemma_far_ends_map(nodes: Map<u32, Node>, edges: Seq<GraphEdge>, a: u32, dir: Dir)
    requires
        nodes.contains_key(a),
        endpoints_in(nodes, edges),
        injective(nodes),
    ensures
        idx_far_ends(edges, a, dir).map_values(|i: u32| nodes[i]) == far_ends(links_of(nodes, edges), nodes[a], dir),
        forall|k: int| 0 <= k < idx_far_ends(edges, a, dir).len() ==> nodes.contains_key(#[trigger] idx_far_ends(edges, a, dir)[k]),
    decreases edges.len(),
{
    if edges.len() > 0 {
        let d = edges.drop_last();
        lemma_endpoints_drop_last(nodes, edges);
        lemma_far_ends_map(nodes, d, a, dir);
        lemma_links_drop_last(nodes, edges);
        let e = edges.last();
        let rest = idx_far_ends(d, a, dir);
        let f = |i: u32| nodes[i];
        if idx_matches(e, a, dir) {
            let v = seq![idx_far(e, dir)] + rest;
            assert(v.map_values(f) =~= seq![f(idx_far(e, dir))] + rest.map_values(f));
            assert forall|k: int| 0 <= k < v.len() implies nodes.contains_key(#[trigger] v[k]) by {
                if k > 0 {
                    assert(v[k] == rest[k - 1]);
                }
            }
        } else {
            match dir {
                Dir::Outgoing => { assert(nodes[e.source] != nodes[a]); },
                Dir::Incoming => { assert(nodes[e.target] != nodes[a]); },
            }
        }
    }
}

proof fn lemma_weights_map(nodes: Map<u32, Node>, edges: Seq<GraphEdge>, a: u32, b: u32)
    requires
        nodes.contains_key(a),
        nodes.contains_key(b),
        endpoints_in(nodes, edges),
        injective(nodes),
    ensures
        idx_weights_between(edges, a, b) == weights_between(links_of(nodes, edges), nodes[a], nodes[b]),
    decreases edges.len(),
{
    if edges.len() > 0 {
        let d = edges.drop_last();
        lemma_endpoints_drop_last(nodes, edges);
        lemma_weights_map(nodes, d, a, b);
        lemma_links_drop_last(nodes, edges);
        let e = edges.last();
        if !(e.source == a && e.target == b) {
            if e.source != a {
                assert(nodes[e.source] != nodes[a]);
            } else {
                assert(nodes[e.target] != nodes[b]);
            }
        }
    }
}

proof fn lemma_without_map(nodes: Map<u32, Node>, edges: Seq<GraphEdge>, a: u32)
    requires
        nodes.contains_key(a),
        endpoints_in(nodes, edges),
        injective(nodes),
    ensures
        links_of(nodes, idx_without(edges, a)) == links_without(links_of(nodes, edges), nodes[a]),
    decreases edges.len(),
{
    if edges.len() > 0 {
        let d = edges.drop_last();
        lemma_endpoints_drop_last(nodes, edges);
        lemma_without_map(nodes, d, a);
        lemma_links_drop_last(nodes, edges);
        let e = edges.last();
        if !(e.source == a || e.target == a) {
            assert(nodes[e.source] != nodes[a]);
            assert(nodes[e.target] != nodes[a]);
            let w = idx_without(d, a);
            assert(links_of(nodes, w.push(e)) =~= links_of(nodes, w).push(link_of(nodes, e)));
        }
    }
}

/// A node that is not in the graph has no links.
proof fn lemma_absent_node(nodes: Map<u32, Node>, edges: Seq<GraphEdge>, n: Node, dir: Dir)
    requires
        endpoints_in(nodes, edges),
        forall|i: u32| nodes.contains_key(i) ==> #[trigger] nodes[i] != n,
    ensures
        far_ends(links_of(nodes, edges), n, dir) == Seq::<Node>::empty(),
        links_without(links_of(nodes, edges), n) == links_of(nodes, edges),
    decreases edges.len(),
{
    if edges.len() > 0 {
        let d = edges.drop_last();
        lemma_endpoints_drop_last(nodes, edges);
        lemma_absent_node(nodes, d, n, dir);
        lemma_links_drop_last(nodes, edges);
        assert(nodes[edges.last().source] != n);
        assert(nodes[edges.last().target] != n);
        assert(links_of(nodes, d).push(link_of(nodes, edges.last())) =~= links_of(nodes, edges));
    }
}

proof fn lemma_links_insert_node(nodes: Map<u32, Node>, edges: Seq<GraphEdge>, i: u32, w: Node)
    requires
        !nodes.contains_key(i),
        endpoints_in(nodes, edges),
    ensures
        links_of(nodes.insert(i, w), edges) == links_of(nodes, edges),
{
    assert forall|k: int| 0 <= k < edges.len() implies #[trigger] links_of(nodes.insert(i, w), edges)[k] == links_of(nodes, edges)[k] by {
        assert(nodes.contains_key(edges[k].source) && nodes.contains_key(edges[k].target));
    }
    assert(links_of(nodes.insert(i, w), edges) =~= links_of(nodes, edges));
}

} // verus!

verus! {

/// Whether edge `e` touches node index `a`.
pub open spec fn touches(e: GraphEdge, a: u32) -> bool {
    e.source == a || e.target == a
}

/// Whether some edge of `e0` has index `id` and touches `idx`.
pub open spec fn touching_id(e0: Seq<GraphEdge>, id: u32, idx: u32) -> bool {
    exists|m: int| 0 <= m < e0.len() && e0[m].id == id && touches(e0[m], idx)
}

/// Whether `x` is an edge of `e0`.
pub open spec fn from_e0(e0: Seq<GraphEdge>, x: GraphEdge) -> bool {
    exists|m: int| 0 <= m < e0.len() && e0[m] == x
}

/// Whether `x` is listed in `ids` at or after position `i`.
pub open spec fn listed_from(ids: Seq<u32>, i: int, x: u32) -> bool {
    exists|j: int| i <= j < ids.len() && ids[j] == x
}

proof fn lemma_incident_ids(e0: Seq<GraphEdge>, idx: u32, ids: Seq<u32>)
    requires
        ids == idx_edge_ids(e0, idx, Dir::Outgoing) + idx_edge_ids(e0, idx, Dir::Incoming),
    ensures
        forall|k: int| 0 <= k < e0.len() && touches(#[trigger] e0[k], idx) ==> listed_from(ids, 0, e0[k].id),
        forall|j: int| 0 <= j < ids.len() ==> touching_id(e0, #[trigger] ids[j], idx),
        forall|k: int| 0 <= k < e0.len() ==> from_e0(e0, #[trigger] e0[k]),
{
    let out_ids = idx_edge_ids(e0, idx, Dir::Outgoing);
    let in_ids = idx_edge_ids(e0, idx, Dir::Incoming);
    lemma_edge_ids_complete(e0, idx, Dir::Outgoing);
    lemma_edge_ids_complete(e0, idx, Dir::Incoming);
    assert forall|k: int| 0 <= k < e0.len() && touches(#[trigger] e0[k], idx) implies listed_from(ids, 0, e0[k].id) by {
        if e0[k].source == idx {
            assert(idx_matches(e0[k], idx, Dir::Outgoing));
            assert(out_ids.contains(e0[k].id));
            let j = choose|j: int| 0 <= j < out_ids.len() && out_ids[j] == e0[k].id;
            assert(ids[j] == e0[k].id);
        } else {
            assert(idx_matches(e0[k], idx, Dir::Incoming));
            assert(in_ids.contains(e0[k].id));
            let j = choose|j: int| 0 <= j < in_ids.len() && in_ids[j] == e0[k].id;
            assert(ids[out_ids.len() + j] == e0[k].id);
        }
    }
    assert forall|j: int| 0 <= j < ids.len() implies touching_id(e0, #[trigger] ids[j], idx) by {
        if j < out_ids.len() {
            assert(ids[j] == out_ids[j]);
            lemma_edge_ids_sound(e0, idx, Dir::Outgoing, j);
        } else {
            assert(ids[j] == in_ids[j - out_ids.len()]);
            lemma_edge_ids_sound(e0, idx, Dir::Incoming, j - out_ids.len());
        }
    }
    assert forall|k: int| 0 <= k < e0.len() implies from_e0(e0, #[trigger] e0[k]) by {
        assert(e0[k] == e0[k]);
    }
}

proof fn lemma_clear_step(e0: Seq<GraphEdge>, cur: Seq<GraphEdge>, idx: u32, ids: Seq<u32>, i: int)
    requires
        unique_ids(e0),
        0 <= i < ids.len(),
        forall|k: int| 0 <= k < cur.len() && touches(#[trigger] cur[k], idx) ==> listed_from(ids, i, cur[k].id),
        forall|k: int| 0 <= k < cur.len() ==> from_e0(e0, #[trigger] cur[k]),
        forall|j: int| 0 <= j < ids.len() ==> touching_id(e0, #[trigger] ids[j], idx),
    ensures
        idx_without(remove_id(cur, ids[i]), idx) == idx_without(cur, idx),
        forall|k: int| 0 <= k < remove_id(cur, ids[i]).len() && touches(#[trigger] remove_id(cur, ids[i])[k], idx)
            ==> listed_from(ids, i + 1, remove_id(cur, ids[i])[k].id),
        forall|k: int| 0 <= k < remove_id(cur, ids[i]).len() ==> from_e0(e0, #[trigger] remove_id(cur, ids[i])[k]),
{
    let id = ids[i];
    let next = remove_id(cur, id);
    assert forall|k: int| 0 <= k < cur.len() && (#[trigger] cur[k]).id == id implies cur[k].source == idx || cur[k].target == idx by {
        assert(from_e0(e0, cur[k]));
        assert(touching_id(e0, ids[i], idx));
        let m1 = choose|m: int| 0 <= m < e0.len() && e0[m] == cur[k];
        let m2 = choose|m: int| 0 <= m < e0.len() && e0[m].id == ids[i] && touches(e0[m], idx);
        assert(e0[m1].id == e0[m2].id);
    }
    lemma_without_remove_id(cur, idx, id);
    lemma_remove_id_members(cur, id);
    assert forall|k: int| 0 <= k < next.len() && touches(#[trigger] next[k], idx) implies listed_from(ids, i + 1, next[k].id) by {
        let m = choose|m: int| 0 <= m < cur.len() && #[trigger] cur[m] == #[trigger] next[k];
        assert(touches(cur[m], idx));
        assert(listed_from(ids, i, cur[m].id));
        let j = choose|j: int| i <= j < ids.len() && ids[j] == cur[m].id;
        assert(j != i);
    }
    assert forall|k: int| 0 <= k < next.len() implies from_e0(e0, #[trigger] next[k]) by {
        let m = choose|m: int| 0 <= m < cur.len() && #[trigger] cur[m] == #[trigger] next[k];
        assert(from_e0(e0, cur[m]));
    }
}

proof fn lemma_clear_done(nodes: Map<u32, Node>, e0: Seq<GraphEdge>, fin: Seq<GraphEdge>, idx: u32, ids: Seq<u32>)
    requires
        unique_ids(e0),
        endpoints_in(nodes, e0),
        forall|k: int| 0 <= k < e0.len() ==> link_well_kinded(link_of(nodes, #[trigger] e0[k])),
        injective(nodes),
        nodes.contains_key(idx),
        forall|k: int| 0 <= k < fin.len() && touches(#[trigger] fin[k], idx) ==> listed_from(ids, ids.len() as int, fin[k].id),
        idx_without(fin, idx) == idx_without(e0, idx),
    ensures
        fin == idx_without(e0, idx),
        fin.len() <= e0.len(),
        unique_ids(fin),
        endpoints_in(nodes, fin),
        forall|k: int| 0 <= k < fin.len() ==> link_well_kinded(link_of(nodes, #[trigger] fin[k])),
        links_of(nodes, fin) == links_without(links_of(nodes, e0), nodes[idx]),
{
    assert forall|k: int| 0 <= k < fin.len() implies (#[trigger] fin[k]).source != idx && fin[k].target != idx by {
        if touches(fin[k], idx) {
            assert(listed_from(ids, ids.len() as int, fin[k].id));
        }
    }
    lemma_without_none_touching(fin, idx);
    lemma_without_unique(e0, idx);
    lemma_without_members(e0, idx);
    lemma_without_map(nodes, e0, idx);
    assert forall|k: int| 0 <= k < fin.len() implies nodes.contains_key((#[trigger] fin[k]).source) && nodes.contains_key(fin[k].target)
        && link_well_kinded(link_of(nodes, fin[k])) by {
        let m = choose|m: int| 0 <= m < e0.len() && #[trigger] e0[m] == #[trigger] fin[k];
    }
}

/// Removes the edges listed in `ids`, all of which touch `idx`, where every
/// edge touching `idx` is listed. Returns the edges that are left.
fn remove_edges(g: &mut Graph, ids: &Vec<u32>, idx: u32, Ghost(e0): Ghost<Seq<GraphEdge>>) -> (fin: Ghost<Seq<GraphEdge>>)
    requires
        graph_agrees(*old(g), e0),
        unique_ids(e0),
        forall|k: int| 0 <= k < e0.len() && touches(#[trigger] e0[k], idx) ==> listed_from(ids@, 0, e0[k].id),
        forall|j: int| 0 <= j < ids@.len() ==> touching_id(e0, #[trigger] ids@[j], idx),
        forall|k: int| 0 <= k < e0.len() ==> from_e0(e0, #[trigger] e0[k]),
    ensures
        graph_nodes(*final(g)) == graph_nodes(*old(g)),
        graph_agrees(*final(g), fin@),
        unique_ids(fin@),
        idx_without(fin@, idx) == idx_without(e0, idx),
        forall|k: int| 0 <= k < fin@.len() && touches(#[trigger] fin@[k], idx)
            ==> listed_from(ids@, ids@.len() as int, fin@[k].id),
        forall|k: int| 0 <= k < fin@.len() ==> from_e0(e0, #[trigger] fin@[k]),
{
    let n = ids.len();
    let mut i: usize = 0;
    let ghost mut cur = e0;
    while i < n
        invariant
            n == ids@.len(),
            i <= n,
            graph_nodes(*g) == graph_nodes(*old(g)),
            unique_ids(e0),
            graph_agrees(*g, cur),
            unique_ids(cur),
            idx_without(cur, idx) == idx_without(e0, idx),
            forall|k: int| 0 <= k < cur.len() && touches(#[trigger] cur[k], idx)
                ==> listed_from(ids@, i as int, cur[k].id),
            forall|k: int| 0 <= k < cur.len() ==> from_e0(e0, #[trigger] cur[k]),
            forall|j: int| 0 <= j < ids@.len() ==> touching_id(e0, #[trigger] ids@[j], idx),
        decreases n - i,
    {
        let id = ids[i];
        proof {
            lemma_clear_step(e0, cur, idx, ids@, i as int);
        }
        let ghost before = *g;
        graph_remove_edge(g, id);
        proof {
            lemma_agrees_remove(before, *g, cur, id);
            cur = remove_id(cur, id);
        }
        i = i + 1;
    }
    Ghost(cur)
}

/// An end reached from a node, with the weights of the edges to it.
struct RawItem {
    end: Node,
    weights: Vec<Edge>,
}

pub proof fn lemma_far_ends_len(links: Seq<Link>, n: Node, dir: Dir)
    ensures
        far_ends(links, n, dir).len() <= links.len(),
    decreases links.len(),
{
    if links.len() > 0 {
        lemma_far_ends_len(links.drop_last(), n, dir);
    }
}

/// Whether some link at `n` in direction `dir` has far end `x`.
pub open spec fn has_link_to(links: Seq<Link>, n: Node, dir: Dir, x: Node) -> bool {
    exists|m: int| 0 <= m < links.len() && link_matches(links[m], n, dir) && link_far(links[m], dir) == x
}

/// Whether some link from `a` to `b` has weight `w`.
pub open spec fn has_link_weight(links: Seq<Link>, a: Node, b: Node, w: Edge) -> bool {
    exists|m: int| 0 <= m < links.len() && links[m].source == a && links[m].target == b && links[m].weight == w
}

proof fn lemma_far_ends_sound(links: Seq<Link>, n: Node, dir: Dir, k: int)
    requires
        0 <= k < far_ends(links, n, dir).len(),
    ensures
        has_link_to(links, n, dir, far_ends(links, n, dir)[k]),
    decreases links.len(),
{
    let d = links.drop_last();
    let rest = far_ends(d, n, dir);
    if link_matches(links.last(), n, dir) && k == 0 {
        assert(links[links.len() - 1] == links.last());
    } else {
        let k2 = if link_matches(links.last(), n, dir) { k - 1 } else { k };
        assert(far_ends(links, n, dir)[k] == rest[k2]);
        lemma_far_ends_sound(d, n, dir, k2);
        let m = choose|m: int| 0 <= m < d.len() && link_matches(d[m], n, dir) && link_far(d[m], dir) == rest[k2];
        assert(links[m] == d[m]);
    }
}

proof fn lemma_weights_sound(links: Seq<Link>, a: Node, b: Node, k: int)
    requires
        0 <= k < weights_between(links, a, b).len(),
    ensures
        has_link_weight(links, a, b, weights_between(links, a, b)[k]),
    decreases links.len(),
{
    let d = links.drop_last();
    let rest = weights_between(d, a, b);
    let here = links.last().source == a && links.last().target == b;
    if here && k == 0 {
        assert(links[links.len() - 1] == links.last());
    } else {
        let k2 = if here { k - 1 } else { k };
        assert(weights_between(links, a, b)[k] == rest[k2]);
        lemma_weights_sound(d, a, b, k2);
        let m = choose|m: int| 0 <= m < d.len() && d[m].source == a && d[m].target == b && d[m].weight == rest[k2];
        assert(links[m] == d[m]);
    }
}

/// With well-kinded links, ends and weights have the kinds their direction implies.
pub proof fn lemma_kinds(links: Seq<Link>, start: Node, dir: Dir, k: int)
    requires
        forall|m: int| 0 <= m < links.len() ==> link_well_kinded(#[trigger] links[m]),
        0 <= k < far_ends(links, start, dir).len(),
    ensures
        (start is Trigger) ==> far_ends(links, start, dir)[k] is Effect,
        (start is Effect) ==> far_ends(links, start, dir)[k] is Trigger,
        (dir == Dir::Outgoing && start is Trigger) ==> forall|j: int| 0 <= j < weights_between(links, start, far_ends(links, start, dir)[k]).len()
            ==> #[trigger] weights_between(links, start, far_ends(links, start, dir)[k])[j] is EffectDep,
        (dir == Dir::Outgoing && start is Effect) ==> forall|j: int| 0 <= j < weights_between(links, start, far_ends(links, start, dir)[k]).len()
            ==> #[trigger] weights_between(links, start, far_ends(links, start, dir)[k])[j] is EffectSub,
{
    let x = far_ends(links, start, dir)[k];
    lemma_far_ends_sound(links, start, dir, k);
    let m = choose|m: int| 0 <= m < links.len() && link_matches(links[m], start, dir) && link_far(links[m], dir) == x;
    assert(link_well_kinded(links[m]));
    let ws = weights_between(links, start, x);
    assert forall|j: int| 0 <= j < ws.len() implies (start is Trigger ==> #[trigger] ws[j] is EffectDep) && (start is Effect ==> ws[j] is EffectSub) by {
        lemma_weights_sound(links, start, x, j);
        let m2 = choose|m2: int| 0 <= m2 < links.len() && links[m2].source == start && links[m2].target == x && links[m2].weight == ws[j];
        assert(link_well_kinded(links[m2]));
    }
}

/// Converts dependency edges to their infos.
fn to_dep_infos(ws: &Vec<Edge>) -> (res: Vec<EffectDepInfo>)
    requires
        forall|j: int| 0 <= j < ws@.len() ==> #[trigger] ws@[j] is EffectDep,
    ensures
        as_deps(res@) == ws@,
{
    let mut res: Vec<EffectDepInfo> = Vec::new();
    let n = ws.len();
    let mut j: usize = 0;
    while j < n
        invariant
            n == ws@.len(),
            j <= n,
            forall|i: int| 0 <= i < ws@.len() ==> #[trigger] ws@[i] is EffectDep,
            as_deps(res@) == ws@.subrange(0, j as int),
        decreases n - j,
    {
        let info = match ws[j] {
            Edge::EffectDep(info) => info,
            Edge::EffectSub(s) => {
                assert(ws@[j as int] is EffectDep);
                EffectDepInfo { gathered_loc: s.exec_loc }
            },
        };
        let ghost prev = res@;
        res.push(info);
        assert(as_deps(res@) =~= as_deps(prev).push(Edge::EffectDep(info)));
        assert(ws@.subrange(0, j + 1) =~= ws@.subrange(0, j as int).push(ws@[j as int]));
        j = j + 1;
    }
    assert(ws@.subrange(0, n as int) =~= ws@);
    res
}

/// Converts subscriber edges to their infos.
fn to_sub_infos(ws: &Vec<Edge>) -> (res: Vec<EffectSubInfo>)
    requires
        forall|j: int| 0 <= j < ws@.len() ==> #[trigger] ws@[j] is EffectSub,
    ensures
        as_subs(res@) == ws@,
{
    let mut res: Vec<EffectSubInfo> = Vec::new();
    let n = ws.len();
    let mut j: usize = 0;
    while j < n
        invariant
            n == ws@.len(),
            j <= n,
            forall|i: int| 0 <= i < ws@.len() ==> #[trigger] ws@[i] is EffectSub,
            as_subs(res@) == ws@.subrange(0, j as int),
        decreases n - j,
    {
        let info = match ws[j] {
            Edge::EffectSub(info) => info,
            Edge::EffectDep(d) => {
                assert(ws@[j as int] is EffectSub);
                EffectSubInfo { exec_loc: d.gathered_loc }
            },
        };
        let ghost prev = res@;
        res.push(info);
        assert(as_subs(res@) =~= as_subs(prev).push(Edge::EffectSub(info)));
        assert(ws@.subrange(0, j + 1) =~= ws@.subrange(0, j as int).push(ws@[j as int]));
        j = j + 1;
    }
    assert(ws@.subrange(0, n as int) =~= ws@);
    res
}

/// Whether no end reached from `n` against the edges' direction also has an
/// edge coming from `n`.
pub open spec fn no_reverse_links(links: Seq<Link>, n: Node) -> bool {
    forall|k: int| 0 <= k < far_ends(links, n, Dir::Incoming).len()
        ==> weights_between(links, n, #[trigger] far_ends(links, n, Dir::Incoming)[k]).len() == 0
}

/// An end of an edge reached from a node, with the infos of the edges from
/// that node to it.
pub struct WithItem<I> {
    pub end: u64,
    pub infos: Vec<I>,
}

/// Subscribers of a trigger: the effects that gathered it.
pub struct WithTriggerSubs;

/// Dependencies of a trigger: the effects that executed it.
pub struct WithTriggerDeps;

/// Dependencies of an effect: the triggers it gathered.
pub struct WithEffectDeps;

/// Subscribers of an effect: the triggers it executed.
pub struct WithEffectSubs;

/// Kind of walk through the dependency graph.
pub trait With {
    /// Whether the walk starts at a trigger (else at an effect).
    fn starts_at_trigger() -> (res: bool);

    /// Direction of the edges followed.
    fn direction() -> (res: Dir);
}

impl With for WithTriggerSubs {
    fn starts_at_trigger() -> (res: bool)
        ensures
            res == true,
    {
        true
    }

    fn direction() -> (res: Dir)
        ensures
            res == Dir::Outgoing,
    {
        Dir::Outgoing
    }
}

impl With for WithTriggerDeps {
    fn starts_at_trigger() -> (res: bool)
        ensures
            res == true,
    {
        true
    }

    fn direction() -> (res: Dir)
        ensures
            res == Dir::Incoming,
    {
        Dir::Incoming
    }
}

impl With for WithEffectDeps {
    fn starts_at_trigger() -> (res: bool)
        ensures
            res == false,
    {
        false
    }

    fn direction() -> (res: Dir)
        ensures
            res == Dir::Incoming,
    {
        Dir::Incoming
    }
}

impl With for WithEffectSubs {
    fn starts_at_trigger() -> (res: bool)
        ensures
            res == false,
    {
        false
    }

    fn direction() -> (res: Dir)
        ensures
            res == Dir::Outgoing,
    {
        Dir::Outgoing
    }
}

/// Dependency graph
pub struct DepGraph {
    trigger_nodes: HashMap<u64, u32>,
    effect_nodes: HashMap<u64, u32>,
    graph: Graph,
    /// The live edges, in the order they were added.
    edges: Ghost<Seq<GraphEdge>>,
}

/// Dependency infos of a sequence of dependency edges.
pub open spec fn as_deps(infos: Seq<EffectDepInfo>) -> Seq<Edge> {
    infos.map_values(|i: EffectDepInfo| Edge::EffectDep(i))
}

/// Subscriber infos of a sequence of subscriber edges.
pub open spec fn as_subs(infos: Seq<EffectSubInfo>) -> Seq<Edge> {
    infos.map_values(|i: EffectSubInfo| Edge::EffectSub(i))
}

impl DepGraph {
    /// The graph's links, in the order they were added.
    pub closed spec fn links(&self) -> Seq<Link> {
        links_of(graph_nodes(self.graph), self.edges@)
    }

    /// Number of nodes.
    pub closed spec fn node_count(&self) -> nat {
        graph_nodes(self.graph).dom().len()
    }

    /// Number of edges.
    pub closed spec fn edge_count(&self) -> nat {
        graph_edge_map(self.graph).dom().len()
    }

    /// Whether `n` is a node of the graph.
    pub closed spec fn has_node(&self, n: Node) -> bool {
        match n {
            Node::Trigger(t) => self.trigger_nodes@.contains_key(t),
            Node::Effect(e) => self.effect_nodes@.contains_key(e),
        }
    }

    /// Node index of `n`, when it is in the graph.
    pub closed spec fn index_of(&self, n: Node) -> u32 {
        match n {
            Node::Trigger(t) => self.trigger_nodes@[t],
            Node::Effect(e) => self.effect_nodes@[e],
        }
    }

    pub closed spec fn wf(&self) -> bool {
        let nodes = graph_nodes(self.graph);
        let edges = self.edges@;
        &&& nodes.dom().finite()
        &&& forall|t: u64| #[trigger] self.trigger_nodes@.contains_key(t) ==> nodes.contains_key(self.trigger_nodes@[t])
            && nodes[self.trigger_nodes@[t]] == Node::Trigger(t)
        &&& forall|e: u64| #[trigger] self.effect_nodes@.contains_key(e) ==> nodes.contains_key(self.effect_nodes@[e])
            && nodes[self.effect_nodes@[e]] == Node::Effect(e)
        &&& forall|i: u32| #[trigger] nodes.contains_key(i) ==> match nodes[i] {
            Node::Trigger(t) => self.trigger_nodes@.contains_key(t) && self.trigger_nodes@[t] == i,
            Node::Effect(e) => self.effect_nodes@.contains_key(e) && self.effect_nodes@[e] == i,
        }
        &&& endpoints_in(nodes, edges)
        &&& forall|k: int| 0 <= k < edges.len() ==> link_well_kinded(link_of(nodes, #[trigger] edges[k]))
        &&& unique_ids(edges)
        &&& graph_agrees(self.graph, edges)
    }

    proof fn lemma_wf_facts(&self)
        requires
            self.wf(),
        ensures
            injective(graph_nodes(self.graph)),
            forall|n: Node| #[trigger] self.has_node(n) ==> graph_nodes(self.graph).contains_key(self.index_of(n))
                && graph_nodes(self.graph)[self.index_of(n)] == n,
            forall|n: Node, i: u32| #![trigger self.has_node(n), graph_nodes(self.graph)[i]] !self.has_node(n) && graph_nodes(self.graph).contains_key(i) ==> graph_nodes(self.graph)[i] != n,
            forall|k: int| 0 <= k < self.links().len() ==> link_well_kinded(#[trigger] self.links()[k]),
            self.links().len() == self.edge_count(),
    {
        let nodes = graph_nodes(self.graph);
        assert forall|i: u32, j: u32| nodes.contains_key(i) && nodes.contains_key(j) && #[trigger] nodes[i] == #[trigger] nodes[j] implies i == j by {
            assert(nodes.contains_key(i));
            assert(nodes.contains_key(j));
        }
        assert forall|n: Node, i: u32| #![trigger self.has_node(n), graph_nodes(self.graph)[i]] !self.has_node(n) && graph_nodes(self.graph).contains_key(i) implies graph_nodes(self.graph)[i] != n by {
            assert(nodes.contains_key(i));
        }
        assert forall|k: int| 0 <= k < self.links().len() implies link_well_kinded(#[trigger] self.links()[k]) by {
            assert(self.links()[k] == link_of(nodes, self.edges@[k]));
        }
    }

    /// Creates a new dependency graph
    pub fn new() -> (res: Self)
        ensures
            res.wf(),
            res.links() == Seq::<Link>::empty(),
            res.node_count() == 0,
            res.edge_count() == 0,
    {
        let res = DepGraph {
            trigger_nodes: HashMap::new(),
            effect_nodes: HashMap::new(),
            graph: graph_new(),
            edges: Ghost(Seq::empty()),
        };
        assert(res.links() =~= Seq::<Link>::empty());
        assert(graph_edge_map(res.graph).dom() =~= Set::<u32>::empty());
        res
    }

    /// Index of a node, if it is in the graph.
    fn find_node(&self, node: Node) -> (res: Option<u32>)
        requires
            self.wf(),
        ensures
            res is Some <==> self.has_node(node),
            res matches Some(i) ==> i == self.index_of(node),
    {
        match node {
            Node::Trigger(t) => match self.trigger_nodes.get(&t) {
                Some(i) => Some(*i),
                None => None,
            },
            Node::Effect(e) => match self.effect_nodes.get(&e) {
                Some(i) => Some(*i),
                None => None,
            },
        }
    }

    /// Gets the index of a node, or creates it
    pub fn get_or_insert_node(&mut self, node: Node) -> (idx: u32)
        requires
            old(self).wf(),
            old(self).node_count() < u32::MAX,
        ensures
            final(self).wf(),
            final(self).has_node(node),
            idx == final(self).index_of(node),
            forall|n: Node| old(self).has_node(n) ==> #[trigger] final(self).has_node(n)
                && final(self).index_of(n) == old(self).index_of(n),
            final(self).links() == old(self).links(),
            final(self).edge_count() == old(self).edge_count(),
            final(self).node_count() <= old(self).node_count() + 1,
    {
        match self.find_node(node) {
            Some(i) => i,
            None => {
                let ghost nodes0 = graph_nodes(self.graph);
                let ghost g0 = self.graph;
                let idx = graph_add_node(&mut self.graph, node);
                match node {
                    Node::Trigger(t) => { self.trigger_nodes.insert(t, idx); },
                    Node::Effect(e) => { self.effect_nodes.insert(e, idx); },
                }
                proof {
                    let nodes = graph_nodes(self.graph);
                    let edges = self.edges@;
                    lemma_links_insert_node(nodes0, edges, idx, node);
                    assert(nodes.dom() =~= nodes0.dom().insert(idx));
                    lemma_agrees_add_node(g0, self.graph, edges, idx);
                    assert forall|k: int| 0 <= k < edges.len() implies link_well_kinded(link_of(nodes, #[trigger] edges[k])) by {
                        assert(nodes0.contains_key(edges[k].source) && nodes0.contains_key(edges[k].target));
                        assert(link_of(nodes, edges[k]) == link_of(nodes0, edges[k]));
                    }
                    assert forall|i: u32| #[trigger] nodes.contains_key(i) implies match nodes[i] {
                        Node::Trigger(t) => self.trigger_nodes@.contains_key(t) && self.trigger_nodes@[t] == i,
                        Node::Effect(e) => self.effect_nodes@.contains_key(e) && self.effect_nodes@[e] == i,
                    } by {
                        if i != idx {
                            assert(nodes0.contains_key(i));
                        }
                    }
                    assert(endpoints_in(nodes, edges)) by {
                        assert forall|k: int| 0 <= k < edges.len() implies nodes.contains_key((#[trigger] edges[k]).source) && nodes.contains_key(edges[k].target) by {
                            assert(nodes0.contains_key(edges[k].source) && nodes0.contains_key(edges[k].target));
                        }
                    }
                }
                idx
            },
        }
    }

    /// Adds a link, creating its endpoints as needed.
    fn add_link(&mut self, source: Node, target: Node, weight: Edge)
        requires
            old(self).wf(),
            old(self).node_count() + 1 < u32::MAX,
            old(self).edge_count() < u32::MAX,
            link_well_kinded(Link { source, target, weight }),
        ensures
            final(self).wf(),
            final(self).links() == old(self).links().push(Link { source, target, weight }),
            final(self).edge_count() == old(self).edge_count() + 1,
            final(self).node_count() <= old(self).node_count() + 2,
            final(self).has_node(source),
            final(self).has_node(target),
            forall|n: Node| old(self).has_node(n) ==> #[trigger] final(self).has_node(n),
    {
        let s = self.get_or_insert_node(source);
        let t = self.get_or_insert_node(target);
        let ghost nodes = graph_nodes(self.graph);
        let ghost edges0 = self.edges@;
        let ghost g0 = self.graph;
        proof {
            self.lemma_wf_facts();
            assert(self.has_node(source));
            assert(self.has_node(target));
        }
        let ghost mid_self = *self;
        let id = graph_add_edge(&mut self.graph, s, t, weight);
        let ghost e = GraphEdge { id, source: s, target: t, weight };
        self.edges = Ghost(edges0.push(e));
        proof {
            assert forall|n: Node| old(self).has_node(n) implies #[trigger] self.has_node(n) by {
                assert(mid_self.has_node(n));
            }
            let edges = self.edges@;
            lemma_agrees_add_edge(g0, self.graph, edges0, e);
            assert(graph_edge_map(self.graph).dom() =~= graph_edge_map(g0).dom().insert(id));
            assert(link_of(nodes, e) == Link { source, target, weight });
            assert(links_of(nodes, edges) =~= links_of(nodes, edges0).push(link_of(nodes, e)));
            assert forall|k: int| 0 <= k < edges.len() implies nodes.contains_key((#[trigger] edges[k]).source) && nodes.contains_key(edges[k].target) by {
                if k < edges0.len() {
                    assert(edges[k] == edges0[k]);
                }
            }
            assert forall|k: int| 0 <= k < edges.len() implies link_well_kinded(link_of(nodes, #[trigger] edges[k])) by {
                if k < edges0.len() {
                    assert(edges[k] == edges0[k]);
                }
            }
        }
    }

    /// Adds an effect dependency: `effect` gathered `trigger` at `gathered_loc`.
    pub fn add_effect_dep(&mut self, effect: u64, trigger: u64, gathered_loc: Loc)
        requires
            old(self).wf(),
            old(self).node_count() + 1 < u32::MAX,
            old(self).edge_count() < u32::MAX,
        ensures
            final(self).wf(),
            final(self).links() == old(self).links().push(Link {
                source: Node::Trigger(trigger),
                target: Node::Effect(effect),
                weight: Edge::EffectDep(EffectDepInfo { gathered_loc }),
            }),
            final(self).edge_count() == old(self).edge_count() + 1,
            final(self).node_count() <= old(self).node_count() + 2,
    {
        self.add_link(Node::Trigger(trigger), Node::Effect(effect), Edge::effect_dep(gathered_loc));
    }

    /// Adds an effect subscriber: `effect` executed `trigger` at `exec_loc`.
    pub fn add_effect_sub(&mut self, effect: u64, trigger: u64, exec_loc: Loc)
        requires
            old(self).wf(),
            old(self).node_count() + 1 < u32::MAX,
            old(self).edge_count() < u32::MAX,
        ensures
            final(self).wf(),
            final(self).links() == old(self).links().push(Link {
                source: Node::Effect(effect),
                target: Node::Trigger(trigger),
                weight: Edge::EffectSub(EffectSubInfo { exec_loc }),
            }),
            final(self).edge_count() == old(self).edge_count() + 1,
            final(self).node_count() <= old(self).node_count() + 2,
    {
        self.add_link(Node::Effect(effect), Node::Trigger(trigger), Edge::effect_sub(exec_loc));
    }

    /// Clears an effect's dependencies and subscribers.
    #[verifier::rlimit(30)]
    pub fn clear_effect(&mut self, effect: u64)
        requires
            old(self).wf(),
        ensures
            final(self).wf(),
            final(self).links() == links_without(old(self).links(), Node::Effect(effect)),
            final(self).node_count() == old(self).node_count(),
            final(self).edge_count() <= old(self).edge_count(),
            forall|n: Node| #[trigger] final(self).has_node(n) == old(self).has_node(n),
    {
        proof {
            self.lemma_wf_facts();
        }
        let ghost nodes = graph_nodes(self.graph);
        let ghost e0 = self.edges@;
        let idx = match self.find_node(Node::Effect(effect)) {
            Some(i) => i,
            None => {
                proof {
                    lemma_absent_node(nodes, e0, Node::Effect(effect), Dir::Outgoing);
                }
                return;
            },
        };
        proof {
            assert(self.has_node(Node::Effect(effect)));
        }
        let mut ids = graph_edge_ids(&self.graph, idx, Dir::Outgoing);
        let mut incoming = graph_edge_ids(&self.graph, idx, Dir::Incoming);
        let ghost out_ids = ids@;
        let ghost in_ids = incoming@;
        ids.append(&mut incoming);
        proof {
            lemma_incident_ids(e0, idx, ids@);
        }
        let fin = remove_edges(&mut self.graph, &ids, idx, Ghost(e0));
        self.edges = fin;
        proof {
            lemma_clear_done(nodes, e0, fin@, idx, ids@);
        }
    }

    /// Ends reached from `start` along its edges in direction `dir`, most
    /// recently added edge first and once per edge, each with the weights of
    /// the edges from `start` to it.
    fn with_raw(&self, start: Node, dir: Dir) -> (res: Vec<RawItem>)
        requires
            self.wf(),
        ensures
            res@.len() == far_ends(self.links(), start, dir).len(),
            forall|i: int| 0 <= i < res@.len() ==> (#[trigger] res@[i]).end == far_ends(self.links(), start, dir)[i]
                && res@[i].weights@ == weights_between(self.links(), start, far_ends(self.links(), start, dir)[i]),
    {
        proof {
            self.lemma_wf_facts();
        }
        let ghost nodes = graph_nodes(self.graph);
        let ghost edges = self.edges@;
        let idx = match self.find_node(start) {
            Some(i) => i,
            None => {
                proof {
                    lemma_absent_node(nodes, edges, start, dir);
                }
                return Vec::new();
            },
        };
        proof {
            assert(self.has_node(start));
            lemma_far_ends_map(nodes, edges, idx, dir);
            lemma_far_of(graph_edge_map(self.graph), edges, idx, dir);
        }
        let ends = graph_neighbors(&self.graph, idx, dir);
        let mut res: Vec<RawItem> = Vec::new();
        let n = ends.len();
        let mut k: usize = 0;
        while k < n
            invariant
                n == ends@.len(),
                k <= n,
                res@.len() == k,
                nodes == graph_nodes(self.graph),
                edges == self.edges@,
                map_holds(graph_edge_map(self.graph), edges),
                graph_adj(self.graph, idx, Dir::Outgoing) == idx_edge_ids(edges, idx, Dir::Outgoing),
                nodes.contains_key(idx),
                nodes[idx] == start,
                endpoints_in(nodes, edges),
                injective(nodes),
                ends@ == idx_far_ends(edges, idx, dir),
                ends@.map_values(|i: u32| nodes[i]) == far_ends(links_of(nodes, edges), start, dir),
                forall|m: int| 0 <= m < ends@.len() ==> nodes.contains_key(#[trigger] ends@[m]),
                forall|i: int| 0 <= i < k ==> (#[trigger] res@[i]).end == nodes[ends@[i]]
                    && res@[i].weights@ == weights_between(links_of(nodes, edges), start, nodes[ends@[i]]),
            decreases n - k,
        {
            let b = ends[k];
            let end = match graph_node_weight(&self.graph, b) {
                Some(w) => w,
                None => {
                    assert(false);
                    start
                },
            };
            let weights = graph_edges_connecting(&self.graph, idx, b);
            proof {
                lemma_weights_map(nodes, edges, idx, b);
                lemma_weights_to(graph_edge_map(self.graph), edges, idx, b);
            }
            res.push(RawItem { end, weights });
            k = k + 1;
        }
        proof {
            let fe = far_ends(links_of(nodes, edges), start, dir);
            assert forall|i: int| 0 <= i < res@.len() implies (#[trigger] res@[i]).end == fe[i] by {
                assert(ends@.map_values(|i: u32| nodes[i])[i] == nodes[ends@[i]]);
            }
        }
        res
    }

    /// Uses all subscribers of a trigger: the effects that gathered it, most recent edge first, once per edge, each with the infos of its edges from the trigger.
    pub fn with_trigger_subs(&self, trigger: u64) -> (res: Vec<WithItem<EffectDepInfo>>)
        requires
            self.wf(),
        ensures
            res@.len() == far_ends(self.links(), Node::Trigger(trigger), Dir::Outgoing).len(),
            forall|i: int| 0 <= i < res@.len() ==> Node::Effect((#[trigger] res@[i]).end) == far_ends(self.links(), Node::Trigger(trigger), Dir::Outgoing)[i]
                && as_deps(res@[i].infos@) == weights_between(self.links(), Node::Trigger(trigger), far_ends(self.links(), Node::Trigger(trigger), Dir::Outgoing)[i]),
    {
        proof {
            self.lemma_wf_facts();
        }
        let raw = self.with_raw(Node::Trigger(trigger), Dir::Outgoing);
        let ghost fe = far_ends(self.links(), Node::Trigger(trigger), Dir::Outgoing);
        let mut res: Vec<WithItem<EffectDepInfo>> = Vec::new();
        let n = raw.len();
        let mut k: usize = 0;
        while k < n
            invariant
                n == raw@.len(),
                n == fe.len(),
                k <= n,
                res@.len() == k,
                fe == far_ends(self.links(), Node::Trigger(trigger), Dir::Outgoing),
                self.wf(),
                forall|m: int| 0 <= m < self.links().len() ==> link_well_kinded(#[trigger] self.links()[m]),
                forall|i: int| 0 <= i < raw@.len() ==> (#[trigger] raw@[i]).end == fe[i]
                    && raw@[i].weights@ == weights_between(self.links(), Node::Trigger(trigger), fe[i]),
                forall|i: int| 0 <= i < k ==> Node::Effect((#[trigger] res@[i]).end) == fe[i]
                    && as_deps(res@[i].infos@) == weights_between(self.links(), Node::Trigger(trigger), fe[i]),
            decreases n - k,
        {
            proof {
                lemma_kinds(self.links(), Node::Trigger(trigger), Dir::Outgoing, k as int);
            }
            let item = &raw[k];
            let end = match item.end {
                Node::Effect(id) => id,
                _ => {
                    assert(false);
                    0
                },
            };
            let infos = to_dep_infos(&item.weights);
            res.push(WithItem { end, infos });
            k = k + 1;
        }
        res
    }

    /// Uses all dependencies of a trigger: the effects that executed it, most recent edge first, once per edge, each with the infos of the subscriber edges from the trigger to it (none, given the requirement).
    pub fn with_trigger_deps(&self, trigger: u64) -> (res: Vec<WithItem<EffectSubInfo>>)
        requires
            self.wf(),
            no_reverse_links(self.links(), Node::Trigger(trigger)),
        ensures
            res@.len() == far_ends(self.links(), Node::Trigger(trigger), Dir::Incoming).len(),
            forall|i: int| 0 <= i < res@.len() ==> Node::Effect((#[trigger] res@[i]).end) == far_ends(self.links(), Node::Trigger(trigger), Dir::Incoming)[i]
                && as_subs(res@[i].infos@) == weights_between(self.links(), Node::Trigger(trigger), far_ends(self.links(), Node::Trigger(trigger), Dir::Incoming)[i]),
    {
        proof {
            self.lemma_wf_facts();
        }
        let raw = self.with_raw(Node::Trigger(trigger), Dir::Incoming);
        let ghost fe = far_ends(self.links(), Node::Trigger(trigger), Dir::Incoming);
        let mut res: Vec<WithItem<EffectSubInfo>> = Vec::new();
        let n = raw.len();
        let mut k: usize = 0;
        while k < n
            invariant
                n == raw@.len(),
                n == fe.len(),
                k <= n,
                res@.len() == k,
                fe == far_ends(self.links(), Node::Trigger(trigger), Dir::Incoming),
                self.wf(),
                forall|m: int| 0 <= m < self.links().len() ==> link_well_kinded(#[trigger] self.links()[m]),
                no_reverse_links(self.links(), Node::Trigger(trigger)),
                forall|i: int| 0 <= i < raw@.len() ==> (#[trigger] raw@[i]).end == fe[i]
                    && raw@[i].weights@ == weights_between(self.links(), Node::Trigger(trigger), fe[i]),
                forall|i: int| 0 <= i < k ==> Node::Effect((#[trigger] res@[i]).end) == fe[i]
                    && as_subs(res@[i].infos@) == weights_between(self.links(), Node::Trigger(trigger), fe[i]),
            decreases n - k,
        {
            proof {
                lemma_kinds(self.links(), Node::Trigger(trigger), Dir::Incoming, k as int);
            }
            let item = &raw[k];
            let end = match item.end {
                Node::Effect(id) => id,
                _ => {
                    assert(false);
                    0
                },
            };
            let infos = to_sub_infos(&item.weights);
            res.push(WithItem { end, infos });
            k = k + 1;
        }
        res
    }

    /// Uses all subscribers of an effect: the triggers it executed, most recent edge first, once per edge, each with the infos of its edges from the effect.
    pub fn with_effect_subs(&self, effect: u64) -> (res: Vec<WithItem<EffectSubInfo>>)
        requires
            self.wf(),
        ensures
            res@.len() == far_ends(self.links(), Node::Effect(effect), Dir::Outgoing).len(),
            forall|i: int| 0 <= i < res@.len() ==> Node::Trigger((#[trigger] res@[i]).end) == far_ends(self.links(), Node::Effect(effect), Dir::Outgoing)[i]
                && as_subs(res@[i].infos@) == weights_between(self.links(), Node::Effect(effect), far_ends(self.links(), Node::Effect(effect), Dir::Outgoing)[i]),
    {
        proof {
            self.lemma_wf_facts();
        }
        let raw = self.with_raw(Node::Effect(effect), Dir::Outgoing);
        let ghost fe = far_ends(self.links(), Node::Effect(effect), Dir::Outgoing);
        let mut res: Vec<WithItem<EffectSubInfo>> = Vec::new();
        let n = raw.len();
        let mut k: usize = 0;
        while k < n
            invariant
                n == raw@.len(),
                n == fe.len(),
                k <= n,
                res@.len() == k,
                fe == far_ends(self.links(), Node::Effect(effect), Dir::Outgoing),
                self.wf(),
                forall|m: int| 0 <= m < self.links().len() ==> link_well_kinded(#[trigger] self.links()[m]),
                forall|i: int| 0 <= i < raw@.len() ==> (#[trigger] raw@[i]).end == fe[i]
                    && raw@[i].weights@ == weights_between(self.links(), Node::Effect(effect), fe[i]),
                forall|i: int| 0 <= i < k ==> Node::Trigger((#[trigger] res@[i]).end) == fe[i]
                    && as_subs(res@[i].infos@) == weights_between(self.links(), Node::Effect(effect), fe[i]),
            decreases n - k,
        {
            proof {
                lemma_kinds(self.links(), Node::Effect(effect), Dir::Outgoing, k as int);
            }
            let item = &raw[k];
            let end = match item.end {
                Node::Trigger(id) => id,
                _ => {
                    assert(false);
                    0
                },
            };
            let infos = to_sub_infos(&item.weights);
            res.push(WithItem { end, infos });
            k = k + 1;
        }
        res
    }

    /// Uses all dependencies of an effect: the triggers it gathered, most recent edge first, once per edge, each with the infos of the dependency edges from the effect to it (none, given the requirement).
    pub fn with_effect_deps(&self, effect: u64) -> (res: Vec<WithItem<EffectDepInfo>>)
        requires
            self.wf(),
            no_reverse_links(self.links(), Node::Effect(effect)),
        ensures
            res@.len() == far_ends(self.links(), Node::Effect(effect), Dir::Incoming).len(),
            forall|i: int| 0 <= i < res@.len() ==> Node::Trigger((#[trigger] res@[i]).end) == far_ends(self.links(), Node::Effect(effect), Dir::Incoming)[i]
                && as_deps(res@[i].infos@) == weights_between(self.links(), Node::Effect(effect), far_ends(self.links(), Node::Effect(effect), Dir::Incoming)[i]),
    {
        proof {
            self.lemma_wf_facts();
        }
        let raw = self.with_raw(Node::Effect(effect), Dir::Incoming);
        let ghost fe = far_ends(self.links(), Node::Effect(effect), Dir::Incoming);
        let mut res: Vec<WithItem<EffectDepInfo>> = Vec::new();
        let n = raw.len();
        let mut k: usize = 0;
        while k < n
            invariant
                n == raw@.len(),
                n == fe.len(),
                k <= n,
                res@.len() == k,
                fe == far_ends(self.links(), Node::Effect(effect), Dir::Incoming),
                self.wf(),
                forall|m: int| 0 <= m < self.links().len() ==> link_well_kinded(#[trigger] self.links()[m]),
                no_reverse_links(self.links(), Node::Effect(effect)),
                forall|i: int| 0 <= i < raw@.len() ==> (#[trigger] raw@[i]).end == fe[i]
                    && raw@[i].weights@ == weights_between(self.links(), Node::Effect(effect), fe[i]),
                forall|i: int| 0 <= i < k ==> Node::Trigger((#[trigger] res@[i]).end) == fe[i]
                    && as_deps(res@[i].infos@) == weights_between(self.links(), Node::Effect(effect), fe[i]),
            decreases n - k,
        {
            proof {
                lemma_kinds(self.links(), Node::Effect(effect), Dir::Incoming, k as int);
            }
            let item = &raw[k];
            let end = match item.end {
                Node::Trigger(id) => id,
                _ => {
                    assert(false);
                    0
                },
            };
            let infos = to_dep_infos(&item.weights);
            res.push(WithItem { end, infos });
            k = k + 1;
        }
        res
    }

    /// Whether no end reached from `n` against the edges' direction also has
    /// an edge coming from `n` (walking the dependencies of `n` needs this).
    pub fn reverse_links_free(&self, n: Node) -> (res: bool)
        requires
            self.wf(),
        ensures
            res == no_reverse_links(self.links(), n),
    {
        let raw = self.with_raw(n, Dir::Incoming);
        let ghost fe = far_ends(self.links(), n, Dir::Incoming);
        let len = raw.len();
        let mut k: usize = 0;
        while k < len
            invariant
                len == raw@.len(),
                len == fe.len(),
                k <= len,
                fe == far_ends(self.links(), n, Dir::Incoming),
                forall|i: int| 0 <= i < raw@.len() ==> (#[trigger] raw@[i]).end == fe[i]
                    && raw@[i].weights@ == weights_between(self.links(), n, fe[i]),
                forall|i: int| 0 <= i < k ==> weights_between(self.links(), n, #[trigger] fe[i]).len() == 0,
            decreases len - k,
        {
            if raw[k].weights.len() != 0 {
                return false;
            }
            k = k + 1;
        }
        true
    }

    /// Number of nodes.
    pub fn nodes_len(&self) -> (res: usize)
        ensures
            res == self.node_count(),
    {
        graph_node_count(&self.graph)
    }

    /// Number of edges.
    pub fn edges_len(&self) -> (res: usize)
        ensures
            res == self.edge_count(),
    {
        graph_edge_count(&self.graph)
    }

    /// The graph's graphviz text, with nodes labelled by where the triggers
    /// and effects in the given locations were defined.
    pub closed spec fn dot(&self, trigger_locs: Map<u64, Loc>, effect_locs: Map<u64, Loc>) -> Seq<char> {
        dot_text(node_labels(self.graph, trigger_locs, effect_locs), edge_labels(self.graph))
    }

    /// Exports the dependency graph as a dot graph. Each node is labelled
    /// `Trigger(loc)` or `Effect(loc)` with the location it was defined at,
    /// from `trigger_locs` and `effect_locs` (those that still exist), or
    /// with `<dropped>` in place of the location; each edge is labelled
    /// `Gather(loc)` or `Exec(loc)` with where it was gathered or executed.
    pub fn export_dot(&self, trigger_locs: &HashMap<u64, Loc>, effect_locs: &HashMap<u64, Loc>) -> (res: String)
        ensures
            res@ == self.dot(trigger_locs@, effect_locs@),
    {
        graph_dot(&self.graph, trigger_locs, effect_locs)
    }

    /// There is one link per edge.
    pub proof fn lemma_links_len(&self)
        requires
            self.wf(),
        ensures
            self.links().len() == self.edge_count(),
    {
        self.lemma_wf_facts();
    }

    /// Every link of a well-formed graph goes between an effect and a trigger.
    pub proof fn lemma_links_well_kinded(&self)
        requires
            self.wf(),
        ensures
            forall|k: int| 0 <= k < self.links().len() ==> link_well_kinded(#[trigger] self.links()[k]),
    {
        self.lemma_wf_facts();
    }
}

} // verus!
