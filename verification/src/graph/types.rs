use vstd::prelude::*;
use std::collections::{HashMap, HashSet, VecDeque};
use petgraph::stable_graph::StableGraph;
use crate::graph::stable::{
    Slot, graph_slots, graph_edge_total, kosaraju_components, index_limit, slots_add_edge,
    slots_remove_node, incident_edge_count, out_avoids, in_avoids, edge_index_unused, store_new, store_add_node,
    store_add_edge, store_node_weight, store_neighbors_directed, store_edges, store_remove_node,
    store_node_count, store_edge_count, store_node_indices, sorted_indices, store_kosaraju_scc, store_neighbors,
    scc_facts, index_lists,
};
use crate::ids::{fresh_id, is_v4_id};
use crate::seqs::lemma_first_index_found;
use crate::graph::reach::{
    step, reach_within, is_distance, bfs_outcome, bfs_order, discovered_at, has_discoverer,
    child_rank, lemma_reach_step, lemma_distance_min,
    lemma_step_closed, lemma_reach_closed,
};

verus! {

broadcast use vstd::std_specs::hash::group_hash_axioms;

/// A node of the world graph. Its place on the canvas is kept by the
/// presentation layer, keyed by the node's index.
#[derive(Debug, Clone)]
pub struct GraphNode {
    pub id: u128,
    pub label: String,
    pub node_type: NodeType,
    pub depth: u32,
    pub collapsed: bool,
}

impl GraphNode {
    /// A fresh node with a random id, depth 0, not collapsed.
    pub fn new(label: String, node_type: NodeType) -> (n: Self)
        ensures
            n.label@ == label@,
            n.node_type == node_type,
            n.depth == 0,
            !n.collapsed,
            is_v4_id(n.id),
    {
        GraphNode { id: fresh_id(), label, node_type, depth: 0, collapsed: false }
    }
}

#[derive(Debug, Clone, Copy, PartialEq, Eq, Hash, Structural)]
pub enum NodeType {
    Root,
    Project,
    Task,
    Note,
    File,
    Person,
    Music,
    Artist,
    Album,
    Song,
    Bookmark,
    Knowledge,
    Event,
    Cluster,
}

/// An edge of the world graph: what the relation between its two ends is.
#[derive(Debug, Clone, Copy, PartialEq, Eq, Structural)]
pub struct GraphEdge {
    pub relation: Relation,
}

impl Default for GraphEdge {
    fn default() -> (e: Self)
        ensures
            e.relation == Relation::RelatedTo,
    {
        GraphEdge { relation: Relation::RelatedTo }
    }
}

#[derive(Debug, Clone, Copy, PartialEq, Eq, Hash, Structural)]
pub enum Relation {
    Contains,
    DependsOn,
    RelatedTo,
    CreatedBy,
    References,
    InspiredBy,
    ConnectedTo,
    ScheduledFor,
}

/// The world graph: a petgraph `StableGraph` and an index from node ids to
/// node indices.
pub struct WorldGraph {
    pub graph: StableGraph<GraphNode, GraphEdge>,
    node_map: HashMap<u128, usize>,
}

/// The node indices that the outgoing edges of `i` lead to, in list order.
pub open spec fn slot_children(m: Map<nat, Slot>, i: nat) -> Seq<nat> {
    if m.dom().contains(i) {
        m[i].1.map_values(|o: (nat, nat, GraphEdge)| o.0)
    } else {
        Seq::empty()
    }
}

/// The node indices that the incoming edges of `i` come from, in list order.
pub open spec fn slot_parents(m: Map<nat, Slot>, i: nat) -> Seq<nat> {
    if m.dom().contains(i) {
        m[i].2.map_values(|p: (nat, nat)| p.0)
    } else {
        Seq::empty()
    }
}

/// A node is among the children of each of its parents.
pub open spec fn parents_mirrored(m: Map<nat, Slot>) -> bool {
    forall|i: nat, k: int|
        #![trigger m[i].2[k]]
        m.dom().contains(i) && 0 <= k < m[i].2.len() ==> slot_children(m, m[i].2[k].0).contains(i)
}

/// A node is among the parents of each of its children.
pub open spec fn children_mirrored(m: Map<nat, Slot>) -> bool {
    forall|i: nat, k: int|
        #![trigger m[i].1[k]]
        m.dom().contains(i) && 0 <= k < m[i].1.len() ==> slot_parents(m, m[i].1[k].0).contains(i)
}

/// What `add_node` does: the node goes into slot `idx`, which was not live,
/// and its id now leads there; no edge changes.
pub open spec fn node_added(a: WorldGraph, b: WorldGraph, node: GraphNode, idx: usize) -> bool {
    &&& !a.has_node(idx as nat)
    &&& b.slots() == a.slots().insert(idx as nat, (node, Seq::empty(), Seq::empty()))
    &&& b.id_index() == a.id_index().insert(node.id, idx)
    &&& b.edge_total() == a.edge_total()
}

/// What `add_edge` does: a new edge `from -> to` with index `e`, which no live
/// edge had, goes in front of the outgoing list of `from` and of the incoming
/// list of `to`.
pub open spec fn edge_added(
    a: WorldGraph,
    b: WorldGraph,
    from: usize,
    to: usize,
    e: usize,
    edge: GraphEdge,
) -> bool {
    &&& edge_index_unused(a.slots(), e as nat)
    &&& b.slots() == slots_add_edge(a.slots(), from as nat, to as nat, e as nat, edge)
    &&& b.id_index() == a.id_index()
    &&& b.edge_total() == a.edge_total() + 1
}

/// What `remove_node(idx)` does: a live node goes, with every edge that
/// touches it and with its id, and its weight comes back; otherwise nothing
/// changes and `None` comes back.
pub open spec fn node_removed(a: WorldGraph, b: WorldGraph, idx: usize, r: Option<GraphNode>) -> bool {
    if a.has_node(idx as nat) {
        &&& r == Some(a.node_at(idx as nat))
        &&& b.slots() == slots_remove_node(a.slots(), idx as nat)
        &&& b.id_index() == a.id_index().remove(a.node_at(idx as nat).id)
        &&& b.edge_total() == a.edge_total() - incident_edge_count(a.slots(), idx as nat)
    } else {
        &&& r is None
        &&& b.slots() == a.slots()
        &&& b.id_index() == a.id_index()
        &&& b.edge_total() == a.edge_total()
    }
}

/// Every edge of the slots joins two live nodes, and every index is below the
/// limit of petgraph's index type.
pub open spec fn slots_closed(m: Map<nat, Slot>) -> bool {
    &&& m.dom().finite()
    &&& m.dom().len() <= index_limit()
    &&& forall|i: nat| #[trigger] m.dom().contains(i) ==> i < index_limit()
    &&& forall|i: nat, k: int|
        #![trigger m[i].1[k]]
        m.dom().contains(i) && 0 <= k < m[i].1.len() ==> m.dom().contains(m[i].1[k].0)
    &&& forall|i: nat, k: int|
        #![trigger m[i].2[k]]
        m.dom().contains(i) && 0 <= k < m[i].2.len() ==> m.dom().contains(m[i].2[k].0)
}

/// Entry `p` of a walk was found as edge `cpos[p]` of entry `par[p]`, the
/// first edge from there to it, and no entry before `par[p]` has an edge to
/// it.
spec fn found_by(m: Map<nat, Slot>, enq: Seq<(usize, u32)>, par: Seq<int>, cpos: Seq<int>, p: int) -> bool {
    let ch = slot_children(m, enq[par[p]].0 as nat);
    &&& 0 <= par[p] < p
    &&& 0 <= cpos[p] < ch.len()
    &&& ch[cpos[p]] == enq[p].0 as nat
    &&& forall|k: int| 0 <= k < cpos[p] ==> ch[k] != enq[p].0 as nat
    &&& forall|q: int| 0 <= q < par[p] ==> !step(m, enq[q].0 as nat, enq[p].0 as nat)
}

/// Entry `i` was found before entry `k`: by an earlier entry, or by the same
/// entry through an earlier edge.
spec fn found_before(par: Seq<int>, cpos: Seq<int>, i: int, k: int) -> bool {
    par[i] < par[k] || (par[i] == par[k] && cpos[i] < cpos[k])
}

/// The records of how each entry of a walk was found give the order of a
/// breadth-first walk to every prefix of it.
proof fn lemma_found_order(m: Map<nat, Slot>, enq: Seq<(usize, u32)>, par: Seq<int>, cpos: Seq<int>, n: int)
    requires
        0 <= n <= enq.len(),
        par.len() == enq.len(),
        cpos.len() == enq.len(),
        forall|p: int| 1 <= p < enq.len() ==> #[trigger] found_by(m, enq, par, cpos, p),
        forall|i: int, k: int| 1 <= i < k < enq.len() ==> #[trigger] found_before(par, cpos, i, k),
    ensures
        bfs_order(m, enq.take(n)),
{
    let r = enq.take(n);
    // the discoverer of an entry is the entry that found it
    assert forall|j: int, p: int| 1 <= j < r.len() && #[trigger] discovered_at(m, r, j, p) implies p
        == par[j] by {
        assert(found_by(m, enq, par, cpos, j));
        assert(r[j] == enq[j]);
        assert(r[par[j]] == enq[par[j]]);
        let ch = slot_children(m, enq[par[j]].0 as nat);
        assert(step(m, r[par[j]].0 as nat, r[j].0 as nat)) by {
            assert(ch[cpos[j]] == enq[j].0 as nat);
        }
        if p < par[j] {
            assert(r[p] == enq[p]);
        }
    }
    assert forall|j: int| 1 <= j < r.len() implies #[trigger] has_discoverer(m, r, j) by {
        assert(found_by(m, enq, par, cpos, j));
        let p = par[j];
        assert(r[j] == enq[j]);
        assert(r[p] == enq[p]);
        let ch = slot_children(m, enq[p].0 as nat);
        assert(step(m, r[p].0 as nat, r[j].0 as nat)) by {
            assert(ch[cpos[j]] == enq[j].0 as nat);
        }
        assert forall|q: int| 0 <= q < p implies !step(m, r[q].0 as nat, r[j].0 as nat) by {
            assert(r[q] == enq[q]);
        }
        assert(discovered_at(m, r, j, p));
    }
    assert forall|i: int, j: int, pi: int, pj: int|
        1 <= i < j < r.len() && #[trigger] discovered_at(m, r, i, pi) && #[trigger] discovered_at(
            m,
            r,
            j,
            pj,
        ) implies pi < pj || (pi == pj && child_rank(m, r[pi].0 as nat, r[i].0 as nat) < child_rank(
        m,
        r[pj].0 as nat,
        r[j].0 as nat,
    )) by {
        assert(pi == par[i]);
        assert(pj == par[j]);
        assert(found_before(par, cpos, i, j));
        assert(found_by(m, enq, par, cpos, i));
        assert(found_by(m, enq, par, cpos, j));
        if pi == pj {
            assert(r[pi] == enq[pi]);
            assert(r[i] == enq[i]);
            assert(r[j] == enq[j]);
            let ch = slot_children(m, enq[pi].0 as nat);
            lemma_first_index_found(ch, enq[i].0 as nat, cpos[i]);
            lemma_first_index_found(ch, enq[j].0 as nat, cpos[j]);
        }
    }
}

impl WorldGraph {
    /// The contents of the graph: live node index to weight and edge lists.
    pub closed spec fn slots(&self) -> Map<nat, Slot> {
        graph_slots(self.graph)
    }

    /// The number of live edges.
    pub closed spec fn edge_total(&self) -> nat {
        graph_edge_total(self.graph)
    }

    /// The components that petgraph's Kosaraju pass gives for this graph.
    pub closed spec fn components(&self) -> Seq<Seq<nat>> {
        kosaraju_components(self.graph)
    }

    /// The id index: node id to the node index that `node_by_id` gives.
    pub closed spec fn id_index(&self) -> Map<u128, usize> {
        self.node_map@
    }

    /// The node index that `node_by_id` gives for `id`.
    pub open spec fn index_of(&self, id: u128) -> Option<usize> {
        if self.id_index().contains_key(id) {
            Some(self.id_index()[id])
        } else {
            None
        }
    }

    /// The weight of node `i`.
    pub open spec fn node_at(&self, i: nat) -> GraphNode {
        self.slots()[i].0
    }

    pub open spec fn has_node(&self, i: nat) -> bool {
        self.slots().dom().contains(i)
    }

    /// Well-formedness: edges join live nodes, each edge is listed both among
    /// the outgoing edges of its source and among the incoming edges of its
    /// target, and the id index only points at live nodes that carry that id.
    pub closed spec fn wf(&self) -> bool {
        &&& slots_closed(self.slots())
        &&& parents_mirrored(self.slots())
        &&& children_mirrored(self.slots())
        &&& forall|id: u128| #[trigger]
            self.node_map@.contains_key(id) ==> self.has_node(self.node_map@[id] as nat)
                && self.node_at(self.node_map@[id] as nat).id == id
    }

    /// What `wf` promises to callers.
    pub proof fn lemma_wf(&self)
        requires
            self.wf(),
        ensures
            slots_closed(self.slots()),
            parents_mirrored(self.slots()),
            children_mirrored(self.slots()),
            forall|id: u128| #[trigger]
                self.id_index().contains_key(id) ==> self.has_node(self.id_index()[id] as nat)
                    && self.node_at(self.id_index()[id] as nat).id == id,
    {
    }

    pub fn new() -> (g: Self)
        ensures
            g.wf(),
            g.slots() == Map::<nat, Slot>::empty(),
            g.id_index() == Map::<u128, usize>::empty(),
            g.edge_total() == 0,
    {
        WorldGraph { graph: store_new(), node_map: HashMap::new() }
    }

    /// Adds a node; its id now leads to its index.
    pub fn add_node(&mut self, node: GraphNode) -> (idx: usize)
        requires
            old(self).wf(),
            old(self).slots().dom().len() < index_limit(),
        ensures
            final(self).wf(),
            node_added(*old(self), *final(self), node, idx),
    {
        let id = node.id;
        let idx = store_add_node(&mut self.graph, node);
        self.node_map.insert(id, idx);
        proof {
            let m = old(self).slots();
            let m2 = self.slots();
            assert forall|i: nat, k: int|
                #![trigger m2[i].1[k]]
                m2.dom().contains(i) && 0 <= k < m2[i].1.len() implies m2.dom().contains(
                m2[i].1[k].0,
            ) by {
                assert(m2[i].1[k] == m[i].1[k]);
            }
            assert forall|i: nat, k: int|
                #![trigger m2[i].2[k]]
                m2.dom().contains(i) && 0 <= k < m2[i].2.len() implies m2.dom().contains(
                m2[i].2[k].0,
            ) by {
                assert(m2[i].2[k] == m[i].2[k]);
            }
            assert forall|i: nat, k: int|
                #![trigger m2[i].1[k]]
                m2.dom().contains(i) && 0 <= k < m2[i].1.len() implies slot_parents(
                m2,
                m2[i].1[k].0,
            ).contains(i) by {
                assert(m2[i].1[k] == m[i].1[k]);
                let dst = m[i].1[k].0;
                assert(slot_parents(m2, dst) == slot_parents(m, dst));
            }
            assert forall|j: u128| #[trigger]
                self.node_map@.contains_key(j) implies self.has_node(self.node_map@[j] as nat)
                && self.node_at(self.node_map@[j] as nat).id == j by {
                if j != id {
                    assert(old(self).node_map@.contains_key(j));
                }
            }
        }
        idx
    }

    /// Adds an edge `from -> to`; it comes first among the outgoing edges of
    /// `from` and among the incoming edges of `to`.
    pub fn add_edge(&mut self, from: usize, to: usize, edge: GraphEdge) -> (e: Option<usize>)
        requires
            old(self).wf(),
            old(self).has_node(from as nat),
            old(self).has_node(to as nat),
            old(self).edge_total() < index_limit(),
        ensures
            final(self).wf(),
            e is Some,
            edge_added(*old(self), *final(self), from, to, e->0, edge),
    {
        let e = store_add_edge(&mut self.graph, from, to, edge);
        proof {
            let m = old(self).slots();
            let m2 = self.slots();
            assert forall|i: nat, k: int|
                #![trigger m2[i].1[k]]
                m2.dom().contains(i) && 0 <= k < m2[i].1.len() implies m2.dom().contains(
                m2[i].1[k].0,
            ) by {
                if i == from && k == 0 {
                } else if i == from {
                    assert(m2[i].1[k] == m[i].1[k - 1]);
                } else {
                    assert(m2[i].1[k] == m[i].1[k]);
                }
            }
            assert forall|i: nat, k: int|
                #![trigger m2[i].2[k]]
                m2.dom().contains(i) && 0 <= k < m2[i].2.len() implies m2.dom().contains(
                m2[i].2[k].0,
            ) by {
                if i == to && k == 0 {
                } else if i == to {
                    assert(m2[i].2[k] == m[i].2[k - 1]);
                } else {
                    assert(m2[i].2[k] == m[i].2[k]);
                }
            }
            assert forall|i: nat, k: int|
                #![trigger m2[i].2[k]]
                m2.dom().contains(i) && 0 <= k < m2[i].2.len() implies slot_children(
                m2,
                m2[i].2[k].0,
            ).contains(i) by {
                if i == to && k == 0 {
                    assert(slot_children(m2, from as nat)[0] == to as nat);
                } else {
                    let k0 = if i == to { k - 1 } else { k };
                    assert(m2[i].2[k] == m[i].2[k0]);
                    let src = m[i].2[k0].0;
                    let c = slot_children(m, src);
                    assert(c.contains(i));
                    let j = choose|j: int| 0 <= j < c.len() && c[j] == i;
                    if src == from {
                        assert(slot_children(m2, src)[j + 1] == i);
                    } else {
                        assert(slot_children(m2, src)[j] == i);
                    }
                }
            }
            assert forall|i: nat, k: int|
                #![trigger m2[i].1[k]]
                m2.dom().contains(i) && 0 <= k < m2[i].1.len() implies slot_parents(
                m2,
                m2[i].1[k].0,
            ).contains(i) by {
                if i == from && k == 0 {
                    assert(slot_parents(m2, to as nat)[0] == from as nat);
                } else {
                    let k0 = if i == from { k - 1 } else { k };
                    assert(m2[i].1[k] == m[i].1[k0]);
                    let dst = m[i].1[k0].0;
                    let c = slot_parents(m, dst);
                    assert(c.contains(i));
                    let j = choose|j: int| 0 <= j < c.len() && c[j] == i;
                    if dst == to {
                        assert(slot_parents(m2, dst)[j + 1] == i);
                    } else {
                        assert(slot_parents(m2, dst)[j] == i);
                    }
                }
            }
        }
        Some(e)
    }

    /// The node index that `id` leads to, if any.
    pub fn node_by_id(&self, id: u128) -> (r: Option<usize>)
        requires
            self.wf(),
        ensures
            r == self.index_of(id),
    {
        match self.node_map.get(&id) {
            Some(i) => Some(*i),
            None => None,
        }
    }

    /// The weight of node `idx`, if it is live. An index too large for
    /// petgraph's `u32` index type names no node, and is not handed to it.
    pub fn get_node(&self, idx: usize) -> (r: Option<&GraphNode>)
        requires
            self.wf(),
        ensures
            match r {
                Some(n) => self.has_node(idx as nat) && *n == self.node_at(idx as nat),
                None => !self.has_node(idx as nat),
            },
    {
        if idx > 0xFFFF_FFFF {
            return None;
        }
        store_node_weight(&self.graph, idx)
    }

    /// The targets of the outgoing edges of `idx`, most recent edge first.
    pub fn children_of(&self, idx: usize) -> (r: Vec<usize>)
        requires
            self.wf(),
        ensures
            r@.len() == slot_children(self.slots(), idx as nat).len(),
            forall|k: int|
                0 <= k < r@.len() ==> #[trigger] r@[k] as nat == slot_children(
                    self.slots(),
                    idx as nat,
                )[k],
    {
        if idx > 0xFFFF_FFFF {
            return Vec::new();
        }
        store_neighbors_directed(&self.graph, idx, true)
    }

    /// The source of the most recently added incoming edge of `idx`, if any.
    pub fn parent_of(&self, idx: usize) -> (r: Option<usize>)
        requires
            self.wf(),
        ensures
            match r {
                Some(p) => slot_parents(self.slots(), idx as nat).len() > 0 && p as nat
                    == slot_parents(self.slots(), idx as nat)[0],
                None => slot_parents(self.slots(), idx as nat).len() == 0,
            },
    {
        if idx > 0xFFFF_FFFF {
            return None;
        }
        let v = store_neighbors_directed(&self.graph, idx, false);
        if v.len() > 0 {
            Some(v[0])
        } else {
            None
        }
    }

    /// The outgoing edges of `idx` as `(target, weight)`, most recent first.
    pub fn connected_to(&self, idx: usize) -> (r: Vec<(usize, &GraphEdge)>)
        requires
            self.wf(),
        ensures
            self.has_node(idx as nat) ==> r@.len() == self.slots()[idx as nat].1.len(),
            self.has_node(idx as nat) ==> forall|k: int|
                0 <= k < r@.len() ==> #[trigger] r@[k].0 as nat == self.slots()[idx as nat].1[k].0
                    && *r@[k].1 == self.slots()[idx as nat].1[k].2,
            !self.has_node(idx as nat) ==> r@.len() == 0,
    {
        if idx > 0xFFFF_FFFF {
            return Vec::new();
        }
        let r = store_edges(&self.graph, idx);
        proof {
            if self.has_node(idx as nat) {
                assert forall|k: int| 0 <= k < r@.len() implies #[trigger] r@[k].0 as nat
                    == self.slots()[idx as nat].1[k].0 && *r@[k].1 == self.slots()[idx as nat].1[k].2 by {
                    assert(r@[k].0 as nat == graph_slots(self.graph)[idx as nat].1[k].0);
                }
            }
        }
        r
    }

    /// Removes node `idx` with every edge that touches it, and drops its id
    /// from the id index; `None` when `idx` is not a live node.
    pub fn remove_node(&mut self, idx: usize) -> (r: Option<GraphNode>)
        requires
            old(self).wf(),
        ensures
            final(self).wf(),
            node_removed(*old(self), *final(self), idx, r),
    {
        if idx > 0xFFFF_FFFF {
            return None;
        }
        let node = match store_remove_node(&mut self.graph, idx) {
            Some(n) => n,
            None => return None,
        };
        self.node_map.remove(&node.id);
        proof {
            let m = old(self).slots();
            let m2 = self.slots();
            assert(m2.dom() =~= m.dom().remove(idx as nat));
            assert forall|i: nat, k: int|
                #![trigger m2[i].1[k]]
                m2.dom().contains(i) && 0 <= k < m2[i].1.len() implies m2.dom().contains(
                m2[i].1[k].0,
            ) by {
                let f = out_avoids(idx as nat);
                assert(m[i].1.filter(f).contains(m2[i].1[k]));
                m[i].1.lemma_filter_contains_rev(f, m2[i].1[k]);
            }
            assert forall|i: nat, k: int|
                #![trigger m2[i].2[k]]
                m2.dom().contains(i) && 0 <= k < m2[i].2.len() implies m2.dom().contains(
                m2[i].2[k].0,
            ) by {
                let f = in_avoids(idx as nat);
                assert(m[i].2.filter(f).contains(m2[i].2[k]));
                m[i].2.lemma_filter_contains_rev(f, m2[i].2[k]);
            }
            assert forall|i: nat, k: int|
                #![trigger m2[i].2[k]]
                m2.dom().contains(i) && 0 <= k < m2[i].2.len() implies slot_children(
                m2,
                m2[i].2[k].0,
            ).contains(i) by {
                let f = in_avoids(idx as nat);
                let entry = m2[i].2[k];
                assert(m[i].2.filter(f).contains(entry));
                m[i].2.lemma_filter_contains_rev(f, entry);
                m[i].2.lemma_filter_pred(f, k);
                let k0 = choose|k0: int| 0 <= k0 < m[i].2.len() && m[i].2[k0] == entry;
                let src = entry.0;
                assert(src != idx as nat);
                assert(slot_children(m, src).contains(i)) by {
                    assert(m[i].2[k0] == entry);
                }
                let c = slot_children(m, src);
                let j = choose|j: int| 0 <= j < c.len() && c[j] == i;
                let g = out_avoids(idx as nat);
                assert(g(m[src].1[j]));
                m[src].1.lemma_filter_contains(g, j);
                let fl = m[src].1.filter(g);
                let j2 = choose|j2: int| 0 <= j2 < fl.len() && fl[j2] == m[src].1[j];
                assert(slot_children(m2, src)[j2] == i);
            }
            assert forall|i: nat, k: int|
                #![trigger m2[i].1[k]]
                m2.dom().contains(i) && 0 <= k < m2[i].1.len() implies slot_parents(
                m2,
                m2[i].1[k].0,
            ).contains(i) by {
                let f = out_avoids(idx as nat);
                let entry = m2[i].1[k];
                assert(m[i].1.filter(f).contains(entry));
                m[i].1.lemma_filter_contains_rev(f, entry);
                let k0 = choose|k0: int| 0 <= k0 < m[i].1.len() && m[i].1[k0] == entry;
                let dst = entry.0;
                assert(dst != idx as nat) by {
                    m[i].1.lemma_filter_pred(f, k);
                }
                assert(slot_parents(m, dst).contains(i)) by {
                    assert(m[i].1[k0] == entry);
                }
                let c = slot_parents(m, dst);
                let j = choose|j: int| 0 <= j < c.len() && c[j] == i;
                let g = in_avoids(idx as nat);
                assert(g(m[dst].2[j]));
                m[dst].2.lemma_filter_contains(g, j);
                let fl = m[dst].2.filter(g);
                let j2 = choose|j2: int| 0 <= j2 < fl.len() && fl[j2] == m[dst].2[j];
                assert(slot_parents(m2, dst)[j2] == i);
            }
            assert forall|j: u128| #[trigger]
                self.node_map@.contains_key(j) implies self.has_node(self.node_map@[j] as nat)
                && self.node_at(self.node_map@[j] as nat).id == j by {
                assert(old(self).node_map@.contains_key(j));
                assert(old(self).node_map@[j] == self.node_map@[j]);
                assert(self.node_map@[j] != idx);
            }
        }
        Some(node)
    }

    /// The strongly connected components that petgraph's Kosaraju pass gives,
    /// in reverse topological order.
    pub fn find_scc(&self) -> (r: Vec<Vec<usize>>)
        ensures
            index_lists(r@) == self.components(),
            scc_facts(self.slots(), self.components()),
    {
        store_kosaraju_scc(&self.graph)
    }


    /// Breadth-first walk from `start` along outgoing edges, down to depth
    /// `max_depth`: each reached node once, with its distance from `start`,
    /// in the order in which the walk discovers them (see `bfs_order`).
    #[verifier::spinoff_prover]
    pub fn bfs_from(&self, start: usize, max_depth: u32) -> (r: Vec<(usize, u32)>)
        requires
            self.wf(),
        ensures
            bfs_outcome(self.slots(), start as nat, max_depth as nat, r@),
            bfs_order(self.slots(), r@),
    {
        let ghost m = self.slots();
        let ghost s = start as nat;
        let mut visited: HashSet<usize> = HashSet::new();
        let mut queue: VecDeque<(usize, u32)> = VecDeque::new();
        let mut result: Vec<(usize, u32)> = Vec::new();

        queue.push_back((start, 0));
        visited.insert(start);
        let ghost mut enq: Seq<(usize, u32)> = seq![(start, 0u32)];
        let ghost mut pos: Map<usize, int> = map![start => 0int];
        let ghost mut h: int = 0;
        let ghost mut par: Seq<int> = seq![0int];
        let ghost mut cpos: Seq<int> = seq![0int];
        proof {
            assert(is_distance(m, s, s, 0));
        }

        while queue.len() > 0
            invariant
                self.wf(),
                m == self.slots(),
                s == start as nat,
                0 <= h <= enq.len(),
                enq.len() >= 1,
                enq[0] == (start, 0u32),
                queue@ == enq.subrange(h, enq.len() as int),
                forall|v: usize| #[trigger] visited@.contains(v) <==> pos.dom().contains(v),
                forall|v: usize|
                    #[trigger] pos.dom().contains(v) ==> 0 <= pos[v] < enq.len() && enq[pos[v]].0
                        == v,
                forall|i: int|
                    0 <= i < enq.len() ==> pos.dom().contains(#[trigger] enq[i].0) && pos[enq[i].0]
                        == i,
                forall|i: int|
                    0 <= i < enq.len() ==> is_distance(
                        m,
                        s,
                        #[trigger] enq[i].0 as nat,
                        enq[i].1 as nat,
                    ),
                forall|i: int, j: int|
                    0 <= i <= j < enq.len() ==> #[trigger] enq[i].1 <= #[trigger] enq[j].1,
                h < enq.len() ==> forall|i: int|
                    0 <= i < enq.len() ==> #[trigger] enq[i].1 <= enq[h].1 + 1,
                forall|i: int| 0 <= i < enq.len() ==> #[trigger] enq[i].1 <= i,
                forall|i: int| 1 <= i < enq.len() ==> m.dom().contains(#[trigger] enq[i].0 as nat),
                enq.len() > 1 ==> m.dom().contains(s),
                forall|i: int, k: int|
                    0 <= i < h && enq[i].1 <= max_depth && 0 <= k < slot_children(
                        m,
                        enq[i].0 as nat,
                    ).len() ==> #[trigger] pos.dom().contains(
                        #[trigger] slot_children(m, enq[i].0 as nat)[k] as usize,
                    ),
                result@ == enq.take(result@.len() as int),
                result@.len() <= h,
                forall|i: int| 0 <= i < result@.len() ==> #[trigger] enq[i].1 <= max_depth,
                forall|i: int| result@.len() <= i < h ==> #[trigger] enq[i].1 > max_depth,
                par.len() == enq.len(),
                cpos.len() == enq.len(),
                forall|p: int| 1 <= p < enq.len() ==> #[trigger] found_by(m, enq, par, cpos, p) && par[p] < h,
                forall|i: int, k: int| 1 <= i < k < enq.len() ==> #[trigger] found_before(par, cpos, i, k),
            decreases m.dom().len() + 1 - h,
        {
            proof {
                self.lemma_enq_bound(enq, pos, h);
            }
            let (idx, depth) = queue.pop_front().unwrap();
            proof {
                assert(enq[h] == (idx, depth));
                h = h + 1;
            }
            if depth > max_depth {
                continue;
            }
            proof {
                if result@.len() < h - 1 {
                    assert(enq[result@.len() as int].1 <= enq[h - 1].1);
                }
                assert(result@.len() == h - 1);
            }
            result.push((idx, depth));
            proof {
                assert(result@ =~= enq.take(result@.len() as int));
            }
            let nbrs = self.children_of(idx);
            let ghost children = slot_children(m, idx as nat);
            let ghost base = enq.len();
            proof {
                assert forall|p: int| 1 <= p < base implies #[trigger] par[p] < h - 1 by {
                    assert(found_by(m, enq, par, cpos, p));
                }
            }
            let mut j: usize = 0;
            while j < nbrs.len()
                invariant
                    self.wf(),
                    m == self.slots(),
                    s == start as nat,
                    1 <= h <= base <= enq.len(),
                    enq[0] == (start, 0u32),
                    enq[h - 1] == (idx, depth),
                    depth <= max_depth,
                    depth as int <= h - 1,
                    nbrs@.len() == children.len(),
                    children == slot_children(m, idx as nat),
                    forall|k: int| 0 <= k < nbrs@.len() ==> #[trigger] nbrs@[k] as nat == children[k],
                    0 <= j <= nbrs@.len(),
                    queue@ == enq.subrange(h, enq.len() as int),
                    forall|v: usize| #[trigger] visited@.contains(v) <==> pos.dom().contains(v),
                    forall|v: usize|
                        #[trigger] pos.dom().contains(v) ==> 0 <= pos[v] < enq.len() && enq[pos[v]].0
                            == v,
                    forall|i: int|
                        0 <= i < enq.len() ==> pos.dom().contains(#[trigger] enq[i].0) && pos[enq[i].0]
                            == i,
                    forall|i: int|
                        0 <= i < enq.len() ==> is_distance(
                            m,
                            s,
                            #[trigger] enq[i].0 as nat,
                            enq[i].1 as nat,
                        ),
                    forall|i: int, k: int|
                        0 <= i <= k < enq.len() ==> #[trigger] enq[i].1 <= #[trigger] enq[k].1,
                    forall|i: int| 0 <= i < enq.len() ==> #[trigger] enq[i].1 <= depth + 1,
                    forall|i: int| base <= i < enq.len() ==> #[trigger] enq[i].1 == depth + 1,
                    forall|i: int| 0 <= i < enq.len() ==> #[trigger] enq[i].1 <= i,
                    forall|i: int|
                        1 <= i < enq.len() ==> m.dom().contains(#[trigger] enq[i].0 as nat),
                    enq.len() > 1 ==> m.dom().contains(s),
                    forall|i: int, k: int|
                        0 <= i < h - 1 && enq[i].1 <= max_depth && 0 <= k < slot_children(
                            m,
                            enq[i].0 as nat,
                        ).len() ==> #[trigger] pos.dom().contains(
                            #[trigger] slot_children(m, enq[i].0 as nat)[k] as usize,
                        ),
                    forall|k: int| 0 <= k < j ==> #[trigger] pos.dom().contains(nbrs@[k]),
                    result@ == enq.take(result@.len() as int),
                    result@.len() == h,
                    forall|i: int| 0 <= i < result@.len() ==> #[trigger] enq[i].1 <= max_depth,
                    par.len() == enq.len(),
                    cpos.len() == enq.len(),
                    forall|p: int| 1 <= p < enq.len() ==> #[trigger] found_by(m, enq, par, cpos, p),
                    forall|p: int| 1 <= p < base ==> #[trigger] par[p] < h - 1,
                    forall|p: int| base <= p < enq.len() ==> #[trigger] par[p] == h - 1,
                    forall|p: int| base <= p < enq.len() ==> #[trigger] cpos[p] < j,
                    forall|i: int, k: int| 1 <= i < k < enq.len() ==> #[trigger] found_before(par, cpos, i, k),
                decreases nbrs@.len() - j,
            {
                let nb = nbrs[j];
                proof {
                    assert(step(m, idx as nat, nb as nat)) by {
                        assert(children[j as int] == nb as nat);
                    }
                }
                if visited.insert(nb) {
                    proof {
                        assert forall|k: int| 0 <= k < j implies #[trigger] pos.dom().contains(
                            slot_children(m, enq[h - 1].0 as nat)[k] as usize,
                        ) by {
                            assert(pos.dom().contains(nbrs@[k]));
                            assert(children[k] == nbrs@[k] as nat);
                        }
                        self.lemma_new_entry_distance(enq, pos, h, idx, depth, nb, max_depth);
                        self.lemma_room_for_entry(enq, pos, idx, nb);
                    }
                    queue.push_back((nb, depth + 1));
                    proof {
                        self.lemma_found_push(enq, par, cpos, pos, h, base as int, j as int, nb, max_depth);
                        pos = pos.insert(nb, enq.len() as int);
                        enq = enq.push((nb, (depth + 1) as u32));
                        par = par.push(h - 1);
                        cpos = cpos.push(j as int);
                        assert(queue@ =~= enq.subrange(h, enq.len() as int));
                        assert forall|p: int| base <= p < enq.len() implies #[trigger] par[p] == h - 1 by {
                            if p < enq.len() - 1 {
                                assert(par[p] == par.drop_last()[p]);
                            }
                        }
                        assert forall|p: int| base <= p < enq.len() implies #[trigger] cpos[p] < j + 1 by {
                            if p < enq.len() - 1 {
                                assert(cpos[p] == cpos.drop_last()[p]);
                            }
                        }
                    }
                } else {
                    proof {
                        assert forall|p: int| base <= p < enq.len() implies #[trigger] cpos[p] < j + 1 by {
                            assert(cpos[p] < j);
                        }
                    }
                }
                j = j + 1;
            }
            proof {
                assert forall|i: int, k: int|
                    0 <= i < h && enq[i].1 <= max_depth && 0 <= k < slot_children(
                        m,
                        enq[i].0 as nat,
                    ).len() implies #[trigger] pos.dom().contains(
                    #[trigger] slot_children(m, enq[i].0 as nat)[k] as usize,
                ) by {
                    if i == h - 1 {
                        assert(slot_children(m, enq[i].0 as nat)[k] == nbrs@[k] as nat);
                        assert(pos.dom().contains(nbrs@[k]));
                    }
                }
                if h < enq.len() {
                    assert(enq[h].1 >= depth);
                }
            }
        }
        proof {
            assert(h == enq.len());
            assert(result@.len() > 0) by {
                assert(enq[0].1 <= max_depth);
            }
            assert forall|v: nat, d: nat|
                d <= max_depth && #[trigger] reach_within(m, s, v, d) implies exists|i: int|
                    0 <= i < result@.len() && #[trigger] result@[i].0 as nat == v by {
                self.lemma_reach_visited(enq, pos, h, max_depth as int + 1, max_depth, d, v);
                let i = pos[v as usize];
                lemma_distance_min(m, s, v, enq[i].1 as nat, d);
                assert(i < result@.len());
                assert(result@[i] == enq[i]);
            }
            lemma_found_order(m, enq, par, cpos, result@.len() as int);
        }
        result
    }

    /// Appending the child found through edge `j` of the entry being expanded
    /// (entry `h - 1`) keeps every entry's record of how it was found, and
    /// the order of those records.
    proof fn lemma_found_push(
        &self,
        enq: Seq<(usize, u32)>,
        par: Seq<int>,
        cpos: Seq<int>,
        pos: Map<usize, int>,
        h: int,
        base: int,
        j: int,
        w: usize,
        max_depth: u32,
    )
        requires
            self.wf(),
            1 <= h <= base <= enq.len(),
            enq[h - 1].1 <= max_depth,
            par.len() == enq.len(),
            cpos.len() == enq.len(),
            forall|p: int| 1 <= p < enq.len() ==> #[trigger] found_by(self.slots(), enq, par, cpos, p),
            forall|p: int| 1 <= p < base ==> #[trigger] par[p] < h - 1,
            forall|p: int| base <= p < enq.len() ==> #[trigger] par[p] == h - 1,
            forall|p: int| base <= p < enq.len() ==> #[trigger] cpos[p] < j,
            forall|i: int, k: int| 1 <= i < k < enq.len() ==> #[trigger] found_before(par, cpos, i, k),
            0 <= j < slot_children(self.slots(), enq[h - 1].0 as nat).len(),
            slot_children(self.slots(), enq[h - 1].0 as nat)[j] == w as nat,
            forall|k: int|
                0 <= k < j ==> #[trigger] pos.dom().contains(
                    slot_children(self.slots(), enq[h - 1].0 as nat)[k] as usize,
                ),
            !pos.dom().contains(w),
            forall|i: int, k: int| 0 <= i <= k < enq.len() ==> #[trigger] enq[i].1 <= #[trigger] enq[k].1,
            forall|i: int, k: int|
                0 <= i < h - 1 && enq[i].1 <= max_depth && 0 <= k < slot_children(
                    self.slots(),
                    enq[i].0 as nat,
                ).len() ==> #[trigger] pos.dom().contains(
                    #[trigger] slot_children(self.slots(), enq[i].0 as nat)[k] as usize,
                ),
        ensures
            ({
                let m = self.slots();
                let enq2 = enq.push((w, (enq[h - 1].1 + 1) as u32));
                let par2 = par.push(h - 1);
                let cpos2 = cpos.push(j);
                &&& forall|p: int| 1 <= p < enq2.len() ==> #[trigger] found_by(m, enq2, par2, cpos2, p)
                &&& forall|i: int, k: int|
                    1 <= i < k < enq2.len() ==> #[trigger] found_before(par2, cpos2, i, k)
            }),
    {
        let m = self.slots();
        let n = enq.len() as int;
        let enq2 = enq.push((w, (enq[h - 1].1 + 1) as u32));
        let par2 = par.push(h - 1);
        let cpos2 = cpos.push(j);
        let ch = slot_children(m, enq[h - 1].0 as nat);
        assert forall|p: int| 1 <= p < enq2.len() implies #[trigger] found_by(m, enq2, par2, cpos2, p) by {
            if p < n {
                assert(found_by(m, enq, par, cpos, p));
                assert(par2[p] == par[p] && cpos2[p] == cpos[p] && enq2[p] == enq[p]);
                assert(enq2[par[p]] == enq[par[p]]);
                assert forall|q: int| 0 <= q < par2[p] implies !step(m, enq2[q].0 as nat, enq2[p].0 as nat) by {
                    assert(enq2[q] == enq[q]);
                }
            } else {
                assert(par2[p] == h - 1 && cpos2[p] == j && enq2[p].0 == w);
                assert(enq2[h - 1] == enq[h - 1]);
                assert forall|k: int| 0 <= k < j implies ch[k] != w as nat by {
                    assert(pos.dom().contains(ch[k] as usize));
                }
                assert forall|q: int| 0 <= q < h - 1 implies !step(m, enq2[q].0 as nat, w as nat) by {
                    assert(enq2[q] == enq[q]);
                    if step(m, enq[q].0 as nat, w as nat) {
                        let k = choose|k: int|
                            0 <= k < slot_children(m, enq[q].0 as nat).len() && slot_children(
                                m,
                                enq[q].0 as nat,
                            )[k] == w as nat;
                        assert(enq[q].1 <= enq[h - 1].1);
                        assert(pos.dom().contains(slot_children(m, enq[q].0 as nat)[k] as usize));
                    }
                }
            }
        }
        assert forall|i: int, k: int| 1 <= i < k < enq2.len() implies #[trigger] found_before(
            par2,
            cpos2,
            i,
            k,
        ) by {
            if k < n {
                assert(found_before(par, cpos, i, k));
            } else if i < base {
                assert(par[i] < h - 1);
            } else {
                assert(par[i] == h - 1 && cpos[i] < j);
            }
        }
    }

    /// Every node within `d` edges of the walk's start is visited, when every
    /// entry nearer than `bound` has been expanded and `d <= bound`.
    proof fn lemma_reach_visited(
        &self,
        enq: Seq<(usize, u32)>,
        pos: Map<usize, int>,
        h: int,
        bound: int,
        max_depth: u32,
        d: nat,
        w: nat,
    )
        requires
            self.wf(),
            enq.len() >= 1,
            0 <= h <= enq.len(),
            d <= bound,
            reach_within(self.slots(), enq[0].0 as nat, w, d),
            enq[0].1 == 0,
            forall|v: usize|
                #[trigger] pos.dom().contains(v) ==> 0 <= pos[v] < enq.len() && enq[pos[v]].0 == v,
            forall|i: int|
                0 <= i < enq.len() ==> pos.dom().contains(#[trigger] enq[i].0) && pos[enq[i].0] == i,
            forall|i: int|
                0 <= i < enq.len() ==> is_distance(
                    self.slots(),
                    enq[0].0 as nat,
                    #[trigger] enq[i].0 as nat,
                    enq[i].1 as nat,
                ),
            forall|i: int| 0 <= i < enq.len() && #[trigger] enq[i].1 < bound ==> i < h && enq[i].1 <= max_depth,
            forall|i: int, k: int|
                0 <= i < h && enq[i].1 <= max_depth && 0 <= k < slot_children(
                    self.slots(),
                    enq[i].0 as nat,
                ).len() ==> #[trigger] pos.dom().contains(
                    #[trigger] slot_children(self.slots(), enq[i].0 as nat)[k] as usize,
                ),
        ensures
            pos.dom().contains(w as usize),
            enq[pos[w as usize]].0 as nat == w,
        decreases d,
    {
        let m = self.slots();
        let s = enq[0].0 as nat;
        lemma_reach_closed(m, s, w, d);
        if d == 0 {
            assert(pos.dom().contains(enq[0].0));
        } else if reach_within(m, s, w, (d - 1) as nat) {
            self.lemma_reach_visited(enq, pos, h, bound, max_depth, (d - 1) as nat, w);
        } else {
            let u = choose|u: nat| #[trigger] step(m, u, w) && reach_within(m, s, u, (d - 1) as nat);
            self.lemma_reach_visited(enq, pos, h, bound, max_depth, (d - 1) as nat, u);
            let i = pos[u as usize];
            assert(enq[i].0 as nat == u);
            lemma_distance_min(m, s, u, enq[i].1 as nat, (d - 1) as nat);
            assert(enq[i].1 < bound);
            let k = choose|k: int| 0 <= k < slot_children(m, u).len() && slot_children(m, u)[k] == w;
            assert(pos.dom().contains(slot_children(m, enq[i].0 as nat)[k] as usize));
        }
    }

    /// The walk never holds more entries than the graph has nodes, except for a
    /// start that is not a node and has nothing else with it.
    proof fn lemma_enq_bound(&self, enq: Seq<(usize, u32)>, pos: Map<usize, int>, h: int)
        requires
            self.wf(),
            enq.len() >= 1,
            forall|i: int|
                0 <= i < enq.len() ==> pos.dom().contains(#[trigger] enq[i].0) && pos[enq[i].0] == i,
            forall|i: int|
                1 <= i < enq.len() ==> self.slots().dom().contains(#[trigger] enq[i].0 as nat),
            enq.len() > 1 ==> self.slots().dom().contains(enq[0].0 as nat),
        ensures
            enq.len() <= self.slots().dom().len() + 1,
            enq.len() > 1 ==> enq.len() <= self.slots().dom().len(),
    {
        if enq.len() > 1 {
            self.lemma_entries_fit(enq, pos);
        }
    }

    /// Distinct entries that are all nodes are no more than the nodes.
    proof fn lemma_entries_fit(&self, enq: Seq<(usize, u32)>, pos: Map<usize, int>)
        requires
            self.wf(),
            forall|i: int|
                0 <= i < enq.len() ==> pos.dom().contains(#[trigger] enq[i].0) && pos[enq[i].0] == i,
            forall|i: int|
                0 <= i < enq.len() ==> self.slots().dom().contains(#[trigger] enq[i].0 as nat),
        ensures
            enq.len() <= self.slots().dom().len(),
    {
        let m = self.slots();
        let nodes = enq.map_values(|e: (usize, u32)| e.0 as nat);
        assert(nodes.no_duplicates()) by {
            assert forall|i: int, j: int|
                0 <= i < nodes.len() && 0 <= j < nodes.len() && i != j implies nodes[i]
                != nodes[j] by {
                assert(pos[enq[i].0] == i);
                assert(pos[enq[j].0] == j);
            }
        }
        nodes.unique_seq_to_set();
        assert(nodes.to_set().subset_of(m.dom())) by {
            assert forall|v: nat| nodes.to_set().contains(v) implies m.dom().contains(v) by {
                let i = choose|i: int| 0 <= i < nodes.len() && nodes[i] == v;
                assert(m.dom().contains(enq[i].0 as nat));
            }
        }
        vstd::set_lib::lemma_len_subset(nodes.to_set(), m.dom());
    }

    /// A node not yet in the walk, next to the entry being expanded, fits under
    /// the node count.
    proof fn lemma_room_for_entry(
        &self,
        enq: Seq<(usize, u32)>,
        pos: Map<usize, int>,
        u: usize,
        w: usize,
    )
        requires
            self.wf(),
            enq.len() >= 1,
            forall|i: int|
                0 <= i < enq.len() ==> pos.dom().contains(#[trigger] enq[i].0) && pos[enq[i].0] == i,
            forall|i: int|
                1 <= i < enq.len() ==> self.slots().dom().contains(#[trigger] enq[i].0 as nat),
            enq.len() > 1 ==> self.slots().dom().contains(enq[0].0 as nat),
            enq.len() == 1 ==> enq[0].0 == u,
            step(self.slots(), u as nat, w as nat),
            !pos.dom().contains(w),
        ensures
            enq.len() + 1 <= self.slots().dom().len(),
            self.slots().dom().contains(u as nat),
            self.slots().dom().contains(w as nat),
    {
        let m = self.slots();
        lemma_step_closed(m, u as nat, w as nat);
        let e2 = enq.push((w, 0u32));
        let p2 = pos.insert(w, enq.len() as int);
        assert forall|i: int|
            0 <= i < e2.len() implies p2.dom().contains(#[trigger] e2[i].0) && p2[e2[i].0] == i by {
            if i < enq.len() {
                assert(e2[i] == enq[i]);
                assert(pos.dom().contains(enq[i].0));
            }
        }
        assert forall|i: int| 0 <= i < e2.len() implies m.dom().contains(#[trigger] e2[i].0 as nat) by {
            if i < enq.len() {
                assert(e2[i] == enq[i]);
            }
        }
        self.lemma_entries_fit(e2, p2);
    }

    /// The entry pushed for an unvisited child of the entry being expanded
    /// carries the child's distance.
    proof fn lemma_new_entry_distance(
        &self,
        enq: Seq<(usize, u32)>,
        pos: Map<usize, int>,
        h: int,
        u: usize,
        du: u32,
        w: usize,
        max_depth: u32,
    )
        requires
            self.wf(),
            1 <= h <= enq.len(),
            enq[h - 1] == (u, du),
            du <= max_depth,
            enq[0].1 == 0,
            step(self.slots(), u as nat, w as nat),
            !pos.dom().contains(w),
            forall|v: usize|
                #[trigger] pos.dom().contains(v) ==> 0 <= pos[v] < enq.len() && enq[pos[v]].0 == v,
            forall|i: int|
                0 <= i < enq.len() ==> pos.dom().contains(#[trigger] enq[i].0) && pos[enq[i].0] == i,
            forall|i: int|
                0 <= i < enq.len() ==> is_distance(
                    self.slots(),
                    enq[0].0 as nat,
                    #[trigger] enq[i].0 as nat,
                    enq[i].1 as nat,
                ),
            forall|i: int, k: int| 0 <= i <= k < enq.len() ==> #[trigger] enq[i].1 <= #[trigger] enq[k].1,
            forall|i: int, k: int|
                0 <= i < h - 1 && enq[i].1 <= max_depth && 0 <= k < slot_children(
                    self.slots(),
                    enq[i].0 as nat,
                ).len() ==> #[trigger] pos.dom().contains(
                    #[trigger] slot_children(self.slots(), enq[i].0 as nat)[k] as usize,
                ),
        ensures
            is_distance(self.slots(), enq[0].0 as nat, w as nat, du as nat + 1),
    {
        let m = self.slots();
        let s = enq[0].0 as nat;
        assert(enq[h - 1].0 as nat == u as nat);
        assert(is_distance(m, s, u as nat, du as nat));
        lemma_reach_step(m, s, u as nat, w as nat, du as nat);
        if reach_within(m, s, w as nat, du as nat) {
            assert forall|i: int| 0 <= i < enq.len() && #[trigger] enq[i].1 < du implies i < h - 1
                && enq[i].1 <= max_depth by {
                if i >= h - 1 {
                    assert(enq[h - 1].1 <= enq[i].1);
                }
            }
            self.lemma_reach_visited(enq, pos, h - 1, du as int, max_depth, du as nat, w as nat);
        }
    }

    /// The live node indices in increasing order.
    pub fn node_indices(&self) -> (r: Vec<usize>)
        ensures
            r@.len() == sorted_indices(self.slots()).len(),
            forall|k: int|
                0 <= k < r@.len() ==> #[trigger] r@[k] as nat == sorted_indices(self.slots())[k],
    {
        store_node_indices(&self.graph)
    }

    pub fn node_count(&self) -> (n: usize)
        ensures
            n == self.slots().dom().len(),
    {
        store_node_count(&self.graph)
    }

    pub fn edge_count(&self) -> (n: usize)
        ensures
            n == self.edge_total(),
    {
        store_edge_count(&self.graph)
    }
}

impl Default for WorldGraph {
    fn default() -> (g: Self)
        ensures
            g.wf(),
            g.slots() == Map::<nat, Slot>::empty(),
            g.id_index() == Map::<u128, usize>::empty(),
            g.edge_total() == 0,
    {
        Self::new()
    }
}

} // verus!
