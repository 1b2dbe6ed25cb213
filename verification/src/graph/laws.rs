//! Laws of the world graph and of the breadth-first walk.
use vstd::prelude::*;
use crate::graph::stable::{Slot, in_avoids, out_avoids, incident_edge_count};
use crate::graph::types::{
    GraphEdge, GraphNode, WorldGraph, edge_added, node_added, node_removed, slot_children,
    slot_parents, slots_closed,
};
use crate::graph::reach::{bfs_outcome, is_distance, reach_within};

verus! {

/// A sequence whose every element passes the filter comes through unchanged.
proof fn lemma_filter_keeps_all<A>(s: Seq<A>, pred: spec_fn(A) -> bool)
    requires
        forall|k: int| 0 <= k < s.len() ==> pred(#[trigger] s[k]),
    ensures
        s.filter(pred) == s,
    decreases s.len(),
{
    if s.len() > 0 {
        assert forall|k: int| 0 <= k < s.drop_last().len() implies pred(#[trigger] s.drop_last()[k]) by {
            assert(s.drop_last()[k] == s[k]);
        }
        lemma_filter_keeps_all(s.drop_last(), pred);
        assert(pred(s[s.len() - 1]));
        reveal_with_fuel(Seq::filter, 1);
        assert(s.drop_last().push(s.last()) =~= s);
    }
}

/// Read after write: once a node is added, its id leads to its index, the
/// index holds the node, and there is one node more.
pub proof fn law_find_after_add(a: WorldGraph, b: WorldGraph, node: GraphNode, idx: usize)
    requires
        a.wf(),
        node_added(a, b, node, idx),
    ensures
        b.index_of(node.id) == Some(idx),
        b.has_node(idx as nat),
        b.node_at(idx as nat) == node,
        b.slots().dom().len() == a.slots().dom().len() + 1,
{
    a.lemma_wf();
}

/// Removing a node that was just added, under an id that was new, gives back
/// the node and leaves the graph as it was before the addition.
pub proof fn law_remove_undoes_add(
    a: WorldGraph,
    b: WorldGraph,
    c: WorldGraph,
    node: GraphNode,
    idx: usize,
    r: Option<GraphNode>,
)
    requires
        a.wf(),
        !a.id_index().contains_key(node.id),
        node_added(a, b, node, idx),
        node_removed(b, c, idx, r),
    ensures
        r == Some(node),
        c.slots() == a.slots(),
        c.id_index() == a.id_index(),
        c.edge_total() == a.edge_total(),
{
    a.lemma_wf();
    let m = a.slots();
    let n = idx as nat;
    assert(b.has_node(n));
    assert(b.node_at(n) == node);
    assert forall|i: nat| #[trigger] m.dom().contains(i) implies m[i].1.filter(out_avoids(n)) == m[i].1
        && m[i].2.filter(in_avoids(n)) == m[i].2 by {
        assert forall|k: int| 0 <= k < m[i].1.len() implies #[trigger] out_avoids(n)(m[i].1[k]) by {
            assert(m.dom().contains(m[i].1[k].0));
        }
        assert forall|k: int| 0 <= k < m[i].2.len() implies #[trigger] in_avoids(n)(m[i].2[k]) by {
            assert(m.dom().contains(m[i].2[k].0));
        }
        lemma_filter_keeps_all(m[i].1, out_avoids(n));
        lemma_filter_keeps_all(m[i].2, in_avoids(n));
    }
    assert(c.slots() =~= a.slots()) by {
        assert forall|i: nat| #[trigger] c.slots().dom().contains(i) implies c.slots()[i] == m[i] by {
            assert(b.slots()[i] == m[i]);
        }
    }
    assert(c.id_index() =~= a.id_index());
    let empty_in: Seq<(nat, nat)> = Seq::empty();
    assert(empty_in.filter(in_avoids(n)) =~= empty_in);
    assert(incident_edge_count(b.slots(), n) == 0);
}

/// The newest edge is listed first: after adding `from -> to`, `to` is the
/// first child of `from`, followed by its children from before, and `from` is
/// the first parent of `to`, followed by its parents from before. So
/// `children_of(from)` starts with `to` and `parent_of(to)` is `from`.
pub proof fn law_newest_edge_first(
    a: WorldGraph,
    b: WorldGraph,
    from: usize,
    to: usize,
    e: usize,
    edge: GraphEdge,
)
    requires
        a.wf(),
        a.has_node(from as nat),
        a.has_node(to as nat),
        edge_added(a, b, from, to, e, edge),
    ensures
        slot_children(b.slots(), from as nat) == seq![to as nat] + slot_children(
            a.slots(),
            from as nat,
        ),
        slot_parents(b.slots(), to as nat) == seq![from as nat] + slot_parents(
            a.slots(),
            to as nat,
        ),
{
    assert(slot_children(b.slots(), from as nat) =~= seq![to as nat] + slot_children(
        a.slots(),
        from as nat,
    ));
    assert(slot_parents(b.slots(), to as nat) =~= seq![from as nat] + slot_parents(
        a.slots(),
        to as nat,
    ));
}

/// A node's parent lists it among its children: whatever `parent_of` gives
/// for a node, `children_of` of that parent contains the node.
pub proof fn law_parent_lists_child(g: WorldGraph, i: nat)
    requires
        g.wf(),
        slot_parents(g.slots(), i).len() > 0,
    ensures
        slot_children(g.slots(), slot_parents(g.slots(), i)[0]).contains(i),
{
    g.lemma_wf();
    assert(slot_parents(g.slots(), i)[0] == g.slots()[i].2[0].0);
}

/// After a node is removed, no remaining node has an edge to or from it.
pub proof fn law_no_edge_to_removed(a: WorldGraph, b: WorldGraph, idx: usize, r: Option<GraphNode>, j: nat)
    requires
        a.wf(),
        a.has_node(idx as nat),
        node_removed(a, b, idx, r),
        b.has_node(j),
    ensures
        !slot_children(b.slots(), j).contains(idx as nat),
        !slot_parents(b.slots(), j).contains(idx as nat),
        b.slots().dom().len() + 1 == a.slots().dom().len(),
{
    a.lemma_wf();
    let m = a.slots();
    let n = idx as nat;
    assert(b.slots().dom() =~= m.dom().remove(n));
    let outs = m[j].1.filter(out_avoids(n));
    let ins = m[j].2.filter(in_avoids(n));
    if slot_children(b.slots(), j).contains(n) {
        let k = choose|k: int| 0 <= k < slot_children(b.slots(), j).len() && slot_children(
            b.slots(),
            j,
        )[k] == n;
        m[j].1.lemma_filter_pred(out_avoids(n), k);
    }
    if slot_parents(b.slots(), j).contains(n) {
        let k = choose|k: int| 0 <= k < slot_parents(b.slots(), j).len() && slot_parents(
            b.slots(),
            j,
        )[k] == n;
        m[j].2.lemma_filter_pred(in_avoids(n), k);
    }
}

/// A walk that stops at depth 0 gives the start alone.
pub proof fn law_walk_depth_zero(m: Map<nat, Slot>, s: nat, r: Seq<(usize, u32)>)
    requires
        bfs_outcome(m, s, 0, r),
    ensures
        r.len() == 1,
        r[0].0 as nat == s,
        r[0].1 == 0,
{
    if r.len() > 1 {
        assert(r[1].1 <= 0);
        assert(is_distance(m, s, r[1].0 as nat, 0));
        assert(r[0].0 != r[1].0);
    }
}

/// The walk reaches the children of the start at depth 1 (when it may go that
/// deep), and a node it lists at depth `d + 1` has a parent within `d` edges
/// of the start.
pub proof fn law_walk_children_at_depth_one(
    m: Map<nat, Slot>,
    s: nat,
    max: nat,
    r: Seq<(usize, u32)>,
    c: nat,
)
    requires
        bfs_outcome(m, s, max, r),
        max >= 1,
        slot_children(m, s).contains(c),
        c != s,
    ensures
        exists|i: int| 0 <= i < r.len() && #[trigger] r[i].0 as nat == c && r[i].1 == 1,
{
    assert(reach_within(m, s, s, 0));
    assert(crate::graph::reach::step(m, s, c));
    assert(reach_within(m, s, c, 1));
    let i = choose|i: int| 0 <= i < r.len() && #[trigger] r[i].0 as nat == c;
    assert(is_distance(m, s, c, r[i].1 as nat));
    if r[i].1 == 0 {
        assert(reach_within(m, s, c, 0));
    }
    crate::graph::reach::lemma_distance_min(m, s, c, r[i].1 as nat, 1);
}

} // verus!
