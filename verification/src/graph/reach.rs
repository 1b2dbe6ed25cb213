//! Reachability and breadth-first distances over the slots of the graph store.
use vstd::prelude::*;
use crate::graph::stable::Slot;
use crate::graph::types::{slot_children, slots_closed};
use crate::seqs::first_index;

verus! {

/// There is an edge `u -> v`.
pub open spec fn step(m: Map<nat, Slot>, u: nat, v: nat) -> bool {
    slot_children(m, u).contains(v)
}

/// `v` can be reached from `s` along at most `k` edges.
pub open spec fn reach_within(m: Map<nat, Slot>, s: nat, v: nat, k: nat) -> bool
    decreases k,
{
    if k == 0 {
        v == s
    } else {
        reach_within(m, s, v, (k - 1) as nat) || exists|u: nat|
            #[trigger] step(m, u, v) && reach_within(m, s, u, (k - 1) as nat)
    }
}

/// The shortest path from `s` to `v` has exactly `d` edges.
pub open spec fn is_distance(m: Map<nat, Slot>, s: nat, v: nat, d: nat) -> bool {
    &&& reach_within(m, s, v, d)
    &&& (d == 0 || !reach_within(m, s, v, (d - 1) as nat))
}

/// What a breadth-first walk from `s` that stops at depth `max` gives: `s` at
/// depth 0 first; each node at most once, with its distance from `s`, which is
/// at most `max`; depths never decrease along the sequence; and every node
/// within `max` edges of `s` is there.
pub open spec fn bfs_outcome(m: Map<nat, Slot>, s: nat, max: nat, r: Seq<(usize, u32)>) -> bool {
    &&& r.len() > 0
    &&& r[0].0 as nat == s && r[0].1 == 0
    &&& forall|i: int, j: int| 0 <= i < j < r.len() ==> #[trigger] r[i].0 != #[trigger] r[j].0
    &&& forall|i: int|
        0 <= i < r.len() ==> #[trigger] r[i].1 <= max && is_distance(
            m,
            s,
            r[i].0 as nat,
            r[i].1 as nat,
        )
    &&& forall|i: int, j: int| 0 <= i <= j < r.len() ==> #[trigger] r[i].1 <= #[trigger] r[j].1
    &&& forall|v: nat, d: nat|
        d <= max && #[trigger] reach_within(m, s, v, d) ==> exists|i: int|
            0 <= i < r.len() && #[trigger] r[i].0 as nat == v
}

/// Entry `p` of the walk `r` is the first entry with an edge to entry `j`.
pub open spec fn discovered_at(m: Map<nat, Slot>, r: Seq<(usize, u32)>, j: int, p: int) -> bool {
    &&& 0 <= p < j < r.len()
    &&& step(m, r[p].0 as nat, r[j].0 as nat)
    &&& forall|q: int| 0 <= q < p ==> !step(m, r[q].0 as nat, r[j].0 as nat)
}

/// Some earlier entry of the walk has an edge to entry `j`.
pub open spec fn has_discoverer(m: Map<nat, Slot>, r: Seq<(usize, u32)>, j: int) -> bool {
    exists|p: int| #[trigger] discovered_at(m, r, j, p)
}

/// The place of the first edge from `u` to `v` among the edges of `u`.
pub open spec fn child_rank(m: Map<nat, Slot>, u: nat, v: nat) -> int {
    first_index(slot_children(m, u), v).unwrap()
}

/// The order in which a breadth-first walk lists nodes: every entry after the
/// first is discovered by an earlier entry; entries come in the order of
/// their discoverers, and entries with the same discoverer in the order of
/// their first edges from it.
pub open spec fn bfs_order(m: Map<nat, Slot>, r: Seq<(usize, u32)>) -> bool {
    &&& forall|j: int| 1 <= j < r.len() ==> #[trigger] has_discoverer(m, r, j)
    &&& forall|i: int, j: int, pi: int, pj: int|
        1 <= i < j < r.len() && #[trigger] discovered_at(m, r, i, pi) && #[trigger] discovered_at(
            m,
            r,
            j,
            pj,
        ) ==> pi < pj || (pi == pj && child_rank(m, r[pi].0 as nat, r[i].0 as nat) < child_rank(
            m,
            r[pj].0 as nat,
            r[j].0 as nat,
        ))
}

/// A node reachable within `a` edges is reachable within any `b >= a`.
pub proof fn lemma_reach_mono(m: Map<nat, Slot>, s: nat, v: nat, a: nat, b: nat)
    requires
        reach_within(m, s, v, a),
        a <= b,
    ensures
        reach_within(m, s, v, b),
    decreases b - a,
{
    if a < b {
        lemma_reach_mono(m, s, v, a, (b - 1) as nat);
        assert(reach_within(m, s, v, b));
    }
}

/// One more edge: from `u`, reachable within `k`, to a child `v` of `u`.
pub proof fn lemma_reach_step(m: Map<nat, Slot>, s: nat, u: nat, v: nat, k: nat)
    requires
        reach_within(m, s, u, k),
        step(m, u, v),
    ensures
        reach_within(m, s, v, k + 1),
{
    assert(reach_within(m, s, v, k + 1));
}

/// The distance is a lower bound on the length of every path.
pub proof fn lemma_distance_min(m: Map<nat, Slot>, s: nat, v: nat, d: nat, k: nat)
    requires
        is_distance(m, s, v, d),
        reach_within(m, s, v, k),
    ensures
        d <= k,
{
    if d > k {
        lemma_reach_mono(m, s, v, k, (d - 1) as nat);
    }
}

/// The end of an edge out of the slots' node is a live node.
pub proof fn lemma_step_closed(m: Map<nat, Slot>, u: nat, v: nat)
    requires
        slots_closed(m),
        step(m, u, v),
    ensures
        m.dom().contains(u),
        m.dom().contains(v),
{
    let k = choose|k: int| 0 <= k < slot_children(m, u).len() && slot_children(m, u)[k] == v;
    assert(m[u].1[k].0 == v);
}

/// What is reachable from `s` is `s` itself or a live node.
pub proof fn lemma_reach_closed(m: Map<nat, Slot>, s: nat, v: nat, k: nat)
    requires
        slots_closed(m),
        reach_within(m, s, v, k),
    ensures
        v == s || m.dom().contains(v),
    decreases k,
{
    if k > 0 {
        if reach_within(m, s, v, (k - 1) as nat) {
            lemma_reach_closed(m, s, v, (k - 1) as nat);
        } else {
            let u = choose|u: nat| #[trigger] step(m, u, v) && reach_within(m, s, u, (k - 1) as nat);
            lemma_step_closed(m, u, v);
        }
    }
}

} // verus!
