//! The part of the hierarchical layout that does not place anything: which
//! nodes stand on which level below the root. Placing them is arithmetic on
//! canvas coordinates, done by the presentation layer.
use vstd::prelude::*;
use crate::graph::reach::{bfs_order, bfs_outcome};
use crate::graph::types::WorldGraph;

verus! {

/// The nodes of the entries whose depth is `d`, in entry order.
pub open spec fn nodes_at_depth(entries: Seq<(usize, u32)>, d: nat) -> Seq<usize>
    decreases entries.len(),
{
    if entries.len() == 0 {
        Seq::empty()
    } else {
        let rest = nodes_at_depth(entries.drop_last(), d);
        if entries.last().1 as nat == d {
            rest.push(entries.last().0)
        } else {
            rest
        }
    }
}

/// `levels` groups `entries` by depth: one level per depth from 0 to the
/// deepest entry's depth, each listing the nodes at that depth in entry order.
pub open spec fn grouped_by_depth(entries: Seq<(usize, u32)>, levels: Seq<Vec<usize>>) -> bool {
    &&& levels.len() == (if entries.len() == 0 {
        0
    } else {
        entries.last().1 as nat + 1
    })
    &&& forall|d: int| 0 <= d < levels.len() ==> (#[trigger] levels[d])@ == nodes_at_depth(entries, d as nat)
}

/// Entries with a larger depth than every entry give no node at that depth.
proof fn lemma_no_deeper(entries: Seq<(usize, u32)>, d: nat)
    requires
        forall|i: int| 0 <= i < entries.len() ==> (#[trigger] entries[i].1 as nat) < d,
    ensures
        nodes_at_depth(entries, d) == Seq::<usize>::empty(),
    decreases entries.len(),
{
    if entries.len() > 0 {
        assert forall|i: int| 0 <= i < entries.drop_last().len() implies (
        #[trigger] entries.drop_last()[i].1 as nat) < d by {
            assert(entries.drop_last()[i] == entries[i]);
        }
        lemma_no_deeper(entries.drop_last(), d);
    }
}

/// Groups walk entries, whose depths never decrease, by depth.
pub fn group_by_depth(entries: &Vec<(usize, u32)>) -> (levels: Vec<Vec<usize>>)
    requires
        forall|i: int, j: int|
            0 <= i <= j < entries@.len() ==> #[trigger] entries@[i].1 <= #[trigger] entries@[j].1,
    ensures
        grouped_by_depth(entries@, levels@),
{
    let mut levels: Vec<Vec<usize>> = Vec::new();
    let mut j: usize = 0;
    while j < entries.len()
        invariant
            forall|i: int, k: int|
                0 <= i <= k < entries@.len() ==> #[trigger] entries@[i].1 <= #[trigger] entries@[k].1,
            0 <= j <= entries@.len(),
            grouped_by_depth(entries@.take(j as int), levels@),
        decreases entries@.len() - j,
    {
        let (idx, d) = entries[j];
        let ghost pre = entries@.take(j as int);
        let ghost post = entries@.take(j as int + 1);
        proof {
            assert(post.drop_last() =~= pre);
            assert(post.last() == (idx, d));
        }
        let ghost old_levels = levels@;
        while levels.len() <= d as usize
            invariant
                forall|i: int, k: int|
                    0 <= i <= k < entries@.len() ==> #[trigger] entries@[i].1 <= #[trigger] entries@[k].1,
                0 <= j < entries@.len(),
                entries@[j as int] == (idx, d),
                pre == entries@.take(j as int),
                old_levels.len() <= levels@.len(),
                levels@.len() <= d as nat + 1,
                forall|k: int| 0 <= k < old_levels.len() ==> #[trigger] levels@[k] == old_levels[k],
                forall|k: int| old_levels.len() <= k < levels@.len() ==> (#[trigger] levels@[k])@.len() == 0,
                grouped_by_depth(pre, old_levels),
            decreases d as nat + 1 - levels@.len(),
        {
            levels.push(Vec::new());
        }
        let mut last = levels.pop().unwrap();
        last.push(idx);
        levels.push(last);
        proof {
            assert forall|i: int| 0 <= i < pre.len() implies (#[trigger] pre[i].1) <= d by {
                assert(pre[i] == entries@[i]);
            }
            assert(levels@.len() == d as nat + 1);
            assert forall|e: int| 0 <= e < levels@.len() implies (#[trigger] levels@[e])@
                == nodes_at_depth(post, e as nat) by {
                if e < d {
                    if e < old_levels.len() {
                        assert(levels@[e] == old_levels[e]);
                    } else {
                        assert forall|i: int| 0 <= i < pre.len() implies (#[trigger] pre[i].1 as nat) < e as nat by {
                            assert(pre[i] == entries@[i]);
                            if pre[i].1 >= e {
                                assert(pre.last().1 >= e);
                                assert(old_levels.len() == pre.last().1 as nat + 1);
                            }
                        }
                        lemma_no_deeper(pre, e as nat);
                    }
                } else {
                    if e < old_levels.len() {
                        assert(old_levels[e]@ == nodes_at_depth(pre, e as nat));
                    } else {
                        assert forall|i: int| 0 <= i < pre.len() implies (#[trigger] pre[i].1 as nat) < e as nat by {
                            assert(pre[i] == entries@[i]);
                            if pre[i].1 >= e {
                                assert(pre.last().1 >= e);
                                assert(old_levels.len() == pre.last().1 as nat + 1);
                            }
                        }
                        lemma_no_deeper(pre, e as nat);
                    }
                }
            }
        }
        j = j + 1;
    }
    proof {
        assert(entries@.take(entries@.len() as int) =~= entries@);
    }
    levels
}

/// The levels below `root`: level `d` lists the nodes at distance `d` from
/// `root`, in the order in which a breadth-first walk from it lists them.
pub fn hierarchy_levels(graph: &WorldGraph, root: usize) -> (levels: Vec<Vec<usize>>)
    requires
        graph.wf(),
    ensures
        exists|walk: Seq<(usize, u32)>|
            #[trigger] bfs_outcome(graph.slots(), root as nat, u32::MAX as nat, walk) && bfs_order(
                graph.slots(),
                walk,
            ) && grouped_by_depth(walk, levels@),
{
    let walk = graph.bfs_from(root, u32::MAX);
    let levels = group_by_depth(&walk);
    proof {
        assert(bfs_outcome(graph.slots(), root as nat, u32::MAX as nat, walk@));
    }
    levels
}

} // verus!
