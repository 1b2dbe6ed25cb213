//! The graph store: `petgraph::stable_graph::StableGraph`, declared to Verus,
//! with a model of what it holds and one trusted wrapper per method that the
//! library calls.
//!
//! The model maps each live node index (a value of petgraph's `u32` index
//! type, never `u32::MAX`) to a slot: the node's weight, its
//! outgoing edges in the order in which petgraph walks them (most recently
//! added first), each as `(target, edge index, weight)`, and its incoming
//! edges in the same order, each as `(source, edge index)`.
use vstd::prelude::*;
use petgraph::stable_graph::{NodeIndex, StableGraph};
use petgraph::visit::EdgeRef;
use crate::graph::reach::{reach_within, step};
use crate::graph::types::{GraphEdge, GraphNode};

verus! {

#[verifier::external_type_specification]
#[verifier::external_body]
#[verifier::reject_recursive_types(N)]
#[verifier::reject_recursive_types(E)]
#[verifier::reject_recursive_types(Ty)]
#[verifier::reject_recursive_types(Ix)]
pub struct ExStableGraph<N, E, Ty, Ix>(StableGraph<N, E, Ty, Ix>);

#[verifier::external_type_specification]
#[verifier::external_body]
pub struct ExDirected(petgraph::Directed);

/// What a node slot of the store holds: weight, outgoing edges
/// `(target, edge, weight)` and incoming edges `(source, edge)`.
pub type Slot = (GraphNode, Seq<(nat, nat, GraphEdge)>, Seq<(nat, nat)>);

/// The contents of the store: live node index to slot.
pub uninterp spec fn graph_slots(g: StableGraph<GraphNode, GraphEdge>) -> Map<nat, Slot>;

/// The number of live edges in the store.
pub uninterp spec fn graph_edge_total(g: StableGraph<GraphNode, GraphEdge>) -> nat;

/// The components that `petgraph::algo::kosaraju_scc` returns for the store,
/// each as a sequence of node indices.
pub uninterp spec fn kosaraju_components(g: StableGraph<GraphNode, GraphEdge>) -> Seq<Seq<nat>>;

/// `b` can be reached from `a` along edges of the slots (`a` from itself).
pub open spec fn reachable(m: Map<nat, Slot>, a: nat, b: nat) -> bool {
    exists|d: nat| #[trigger] reach_within(m, a, b, d)
}

/// Lists of node indices, as sequences of naturals.
pub open spec fn index_lists(r: Seq<Vec<usize>>) -> Seq<Seq<nat>> {
    r.map_values(|v: Vec<usize>| v@.map_values(|i: usize| i as nat))
}

/// `(k, j)` is a place in the components `c`.
pub open spec fn in_components(c: Seq<Seq<nat>>, k: int, j: int) -> bool {
    0 <= k < c.len() && 0 <= j < c[k].len()
}

/// What petgraph documents of the components that `kosaraju_scc` returns:
/// each is a strongly connected component, so together they hold every live
/// node exactly once and two nodes share a component exactly when each can be
/// reached from the other; and they come in reverse topological order, so an
/// edge from one component to another leads to one listed earlier.
pub open spec fn scc_facts(m: Map<nat, Slot>, c: Seq<Seq<nat>>) -> bool {
    &&& forall|k: int, j: int| #[trigger] in_components(c, k, j) ==> m.dom().contains(c[k][j])
    &&& forall|v: nat|
        m.dom().contains(v) ==> exists|k: int, j: int| #[trigger] in_components(c, k, j) && c[k][j] == v
    &&& forall|k1: int, j1: int, k2: int, j2: int|
        #[trigger] in_components(c, k1, j1) && #[trigger] in_components(c, k2, j2) ==> {
            &&& (c[k1][j1] == c[k2][j2] ==> k1 == k2 && j1 == j2)
            &&& (k1 == k2 <==> reachable(m, c[k1][j1], c[k2][j2]) && reachable(m, c[k2][j2], c[k1][j1]))
            &&& (k1 != k2 && step(m, c[k1][j1], c[k2][j2]) ==> k2 < k1)
        }
}

/// Largest node or edge index that petgraph's default `u32` index type can hold
/// (the value `u32::MAX` itself is reserved as "no index", so no live node has
/// it). Petgraph turns a `usize` into an index with a cast to `u32`, which
/// keeps the value only up to this bound; the wrappers that take a node index
/// ask for an index no larger than it.
pub open spec fn index_limit() -> nat {
    0xFFFF_FFFFnat
}

/// The slots after adding an edge `a -> b` with index `e` and weight `w`:
/// it is put in front of `a`'s outgoing list and in front of `b`'s incoming list.
pub open spec fn slots_add_edge(m: Map<nat, Slot>, a: nat, b: nat, e: nat, w: GraphEdge) -> Map<
    nat,
    Slot,
> {
    let sa = m[a];
    let m1 = m.insert(a, (sa.0, seq![(b, e, w)] + sa.1, sa.2));
    let sb = m1[b];
    m1.insert(b, (sb.0, sb.1, seq![(a, e)] + sb.2))
}

/// Keeps the outgoing entries that do not lead to `n`.
pub open spec fn out_avoids(n: nat) -> spec_fn((nat, nat, GraphEdge)) -> bool {
    |o: (nat, nat, GraphEdge)| o.0 != n
}

/// Keeps the incoming entries that do not come from `n`.
pub open spec fn in_avoids(n: nat) -> spec_fn((nat, nat)) -> bool {
    |p: (nat, nat)| p.0 != n
}

/// The slots after removing node `n` and every edge that has `n` as an endpoint;
/// the other lists keep their order.
pub open spec fn slots_remove_node(m: Map<nat, Slot>, n: nat) -> Map<nat, Slot> {
    Map::new(
        |i: nat| m.dom().contains(i) && i != n,
        |i: nat|
            (
                m[i].0,
                m[i].1.filter(out_avoids(n)),
                m[i].2.filter(in_avoids(n)),
            ),
    )
}

/// Number of edges that have `n` as an endpoint: its outgoing edges, and its
/// incoming edges that are not self-loops (those are already counted).
pub open spec fn incident_edge_count(m: Map<nat, Slot>, n: nat) -> nat {
    m[n].1.len() + m[n].2.filter(in_avoids(n)).len()
}

/// True when `e` is the index of no live edge.
pub open spec fn edge_index_unused(m: Map<nat, Slot>, e: nat) -> bool {
    forall|i: nat, k: int|
        #![trigger m[i].1[k]]
        m.dom().contains(i) && 0 <= k < m[i].1.len() ==> m[i].1[k].1 != e
}

/// Node indices of `m` below `bound`, in increasing order.
pub open spec fn indices_below(m: Map<nat, Slot>, bound: nat) -> Seq<nat>
    decreases bound,
{
    if bound == 0 {
        Seq::empty()
    } else {
        let rest = indices_below(m, (bound - 1) as nat);
        if m.dom().contains((bound - 1) as nat) {
            rest.push((bound - 1) as nat)
        } else {
            rest
        }
    }
}

/// All node indices of `m` in increasing order.
pub open spec fn sorted_indices(m: Map<nat, Slot>) -> Seq<nat> {
    indices_below(m, index_limit())
}

/// `StableGraph::default()`: an empty graph.
#[verifier::external_body]
pub(crate) fn store_new() -> (store: StableGraph<GraphNode, GraphEdge>)
    ensures
        graph_slots(store).is_empty(),
        graph_edge_total(store) == 0,
{
    StableGraph::default()
}

/// `StableGraph::add_node`: the weight goes into a slot that was not live and
/// whose index is below `u32::MAX`; no edge changes. It panics only when every
/// one of the `u32::MAX` slots is taken, which the precondition rules out.
#[verifier::external_body]
pub(crate) fn store_add_node(g: &mut StableGraph<GraphNode, GraphEdge>, weight: GraphNode) -> (idx:
    usize)
    requires
        graph_slots(*old(g)).dom().len() < index_limit(),
    ensures
        !graph_slots(*old(g)).dom().contains(idx as nat),
        idx < index_limit(),
        graph_slots(*final(g)) == graph_slots(*old(g)).insert(
            idx as nat,
            (weight, Seq::empty(), Seq::empty()),
        ),
        graph_edge_total(*final(g)) == graph_edge_total(*old(g)),
{
    g.add_node(weight).index()
}

/// `StableGraph::add_edge`: the new edge gets an index that no live edge has,
/// and is put in front of the outgoing list of `a` and of the incoming list of
/// `b`. It panics when an endpoint is not a node or when every edge slot is
/// taken; the precondition rules both out.
#[verifier::external_body]
pub(crate) fn store_add_edge(
    g: &mut StableGraph<GraphNode, GraphEdge>,
    a: usize,
    b: usize,
    weight: GraphEdge,
) -> (e: usize)
    requires
        graph_slots(*old(g)).dom().contains(a as nat),
        graph_slots(*old(g)).dom().contains(b as nat),
        a as nat <= index_limit(),
        b as nat <= index_limit(),
        graph_edge_total(*old(g)) < index_limit(),
    ensures
        e < index_limit(),
        edge_index_unused(graph_slots(*old(g)), e as nat),
        graph_slots(*final(g)) == slots_add_edge(
            graph_slots(*old(g)),
            a as nat,
            b as nat,
            e as nat,
            weight,
        ),
        graph_edge_total(*final(g)) == graph_edge_total(*old(g)) + 1,
{
    g.add_edge(NodeIndex::new(a), NodeIndex::new(b), weight).index()
}

/// `StableGraph::node_weight`: the weight of a live node, `None` otherwise.
#[verifier::external_body]
pub(crate) fn store_node_weight(g: &StableGraph<GraphNode, GraphEdge>, a: usize) -> (w: Option<
    &GraphNode,
>)
    requires
        a as nat <= index_limit(),
    ensures
        match w {
            Some(n) => graph_slots(*g).dom().contains(a as nat) && *n == graph_slots(
                *g,
            )[a as nat].0,
            None => !graph_slots(*g).dom().contains(a as nat),
        },
{
    g.node_weight(NodeIndex::new(a))
}

/// `StableGraph::neighbors_directed`, collected: the targets of the outgoing
/// edges (`outgoing == true`) or the sources of the incoming edges of `a`, in
/// the order of its lists; empty when `a` is not a node.
#[verifier::external_body]
pub(crate) fn store_neighbors_directed(
    g: &StableGraph<GraphNode, GraphEdge>,
    a: usize,
    outgoing: bool,
) -> (r: Vec<usize>)
    requires
        a as nat <= index_limit(),
    ensures
        graph_slots(*g).dom().contains(a as nat) ==> r@.len() == (if outgoing {
            graph_slots(*g)[a as nat].1.len()
        } else {
            graph_slots(*g)[a as nat].2.len()
        }),
        graph_slots(*g).dom().contains(a as nat) ==> forall|k: int|
            0 <= k < r@.len() ==> #[trigger] r@[k] as nat == (if outgoing {
                graph_slots(*g)[a as nat].1[k].0
            } else {
                graph_slots(*g)[a as nat].2[k].0
            }),
        !graph_slots(*g).dom().contains(a as nat) ==> r@.len() == 0,
{
    let dir = if outgoing {
        petgraph::Direction::Outgoing
    } else {
        petgraph::Direction::Incoming
    };
    g.neighbors_directed(NodeIndex::new(a), dir).map(|n| n.index()).collect()
}

/// `StableGraph::neighbors`, collected: on this directed graph, the targets of
/// the outgoing edges of `a` in list order; empty when `a` is not a node.
#[verifier::external_body]
pub(crate) fn store_neighbors(g: &StableGraph<GraphNode, GraphEdge>, a: usize) -> (r: Vec<usize>)
    requires
        a as nat <= index_limit(),
    ensures
        graph_slots(*g).dom().contains(a as nat) ==> r@.len() == graph_slots(*g)[a as nat].1.len(),
        graph_slots(*g).dom().contains(a as nat) ==> forall|k: int|
            0 <= k < r@.len() ==> #[trigger] r@[k] as nat == graph_slots(*g)[a as nat].1[k].0,
        !graph_slots(*g).dom().contains(a as nat) ==> r@.len() == 0,
{
    g.neighbors(NodeIndex::new(a)).map(|n| n.index()).collect()
}

/// `StableGraph::edges`, collected: the outgoing edges of `a` as
/// `(target, weight)` in list order; empty when `a` is not a node.
#[verifier::external_body]
pub(crate) fn store_edges<'a>(g: &'a StableGraph<GraphNode, GraphEdge>, a: usize) -> (r: Vec<
    (usize, &'a GraphEdge),
>)
    requires
        a as nat <= index_limit(),
    ensures
        graph_slots(*g).dom().contains(a as nat) ==> r@.len() == graph_slots(*g)[a as nat].1.len(),
        graph_slots(*g).dom().contains(a as nat) ==> forall|k: int|
            0 <= k < r@.len() ==> #[trigger] r@[k].0 as nat == graph_slots(*g)[a as nat].1[k].0
                && *r@[k].1 == graph_slots(*g)[a as nat].1[k].2,
        !graph_slots(*g).dom().contains(a as nat) ==> r@.len() == 0,
{
    g.edges(NodeIndex::new(a)).map(|e| (e.target().index(), e.weight())).collect()
}

/// `StableGraph::remove_node`: for a live node, its weight comes back and the
/// node goes with every edge that has it as an endpoint; the other lists keep
/// their order. Otherwise nothing changes.
#[verifier::external_body]
pub(crate) fn store_remove_node(g: &mut StableGraph<GraphNode, GraphEdge>, a: usize) -> (r: Option<
    GraphNode,
>)
    requires
        a as nat <= index_limit(),
    ensures
        graph_slots(*old(g)).dom().contains(a as nat) ==> {
            &&& r == Some(graph_slots(*old(g))[a as nat].0)
            &&& graph_slots(*final(g)) == slots_remove_node(graph_slots(*old(g)), a as nat)
            &&& graph_edge_total(*final(g)) == graph_edge_total(*old(g)) - incident_edge_count(
                graph_slots(*old(g)),
                a as nat,
            )
        },
        !graph_slots(*old(g)).dom().contains(a as nat) ==> {
            &&& r is None
            &&& graph_slots(*final(g)) == graph_slots(*old(g))
            &&& graph_edge_total(*final(g)) == graph_edge_total(*old(g))
        },
{
    g.remove_node(NodeIndex::new(a))
}

/// `StableGraph::node_count`: the number of live nodes.
#[verifier::external_body]
pub(crate) fn store_node_count(g: &StableGraph<GraphNode, GraphEdge>) -> (n: usize)
    ensures
        n == graph_slots(*g).dom().len(),
{
    g.node_count()
}

/// `StableGraph::edge_count`: the number of live edges.
#[verifier::external_body]
pub(crate) fn store_edge_count(g: &StableGraph<GraphNode, GraphEdge>) -> (n: usize)
    ensures
        n == graph_edge_total(*g),
{
    g.edge_count()
}

/// `StableGraph::node_indices`, collected: the live node indices in increasing
/// order.
#[verifier::external_body]
pub(crate) fn store_node_indices(g: &StableGraph<GraphNode, GraphEdge>) -> (r: Vec<usize>)
    ensures
        r@.len() == sorted_indices(graph_slots(*g)).len(),
        forall|k: int|
            0 <= k < r@.len() ==> #[trigger] r@[k] as nat == sorted_indices(graph_slots(*g))[k],
{
    g.node_indices().map(|n| n.index()).collect()
}

/// `petgraph::algo::kosaraju_scc` on the store, each component as node indices:
/// the components that the name `kosaraju_components` stands for, which are
/// the strongly connected components in reverse topological order, as
/// petgraph documents (`scc_facts`); the order of the nodes inside a
/// component is left unsaid, as petgraph leaves it.
#[verifier::external_body]
pub(crate) fn store_kosaraju_scc(g: &StableGraph<GraphNode, GraphEdge>) -> (r: Vec<Vec<usize>>)
    ensures
        index_lists(r@) == kosaraju_components(*g),
        scc_facts(graph_slots(*g), index_lists(r@)),
{
    petgraph::algo::kosaraju_scc(g).into_iter().map(
        |c: Vec<NodeIndex>| c.into_iter().map(|n| n.index()).collect(),
    ).collect()
}

} // verus!
