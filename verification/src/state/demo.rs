//! The demo map that a new world starts with, and what a graph built by a
//! list of insertions holds.
use vstd::prelude::*;
use crate::graph::reach::{reach_within, step};
use crate::graph::types::{
    GraphEdge, slot_children, GraphNode, NodeType, Relation, WorldGraph, edge_added, node_added, slots_closed,
};

verus! {

/// Entry `k` of the demo map (`0 <= k < 79`), the node at position `k + 1`
/// (position 0 is the root): its label, its kind, and the position of the
/// node it is filed under.
pub open spec fn demo_entry(k: int) -> (Seq<char>, NodeType, int) {
    if k == 0 {
        ("Code"@, NodeType::Cluster, 0)
    } else if k == 1 {
        ("void"@, NodeType::Project, 1)
    } else if k == 2 {
        ("core engine"@, NodeType::Note, 2)
    } else if k == 3 {
        ("graph renderer"@, NodeType::Note, 2)
    } else if k == 4 {
        ("camera system"@, NodeType::Note, 2)
    } else if k == 5 {
        ("plugin api"@, NodeType::Note, 2)
    } else if k == 6 {
        ("animation engine"@, NodeType::Note, 2)
    } else if k == 7 {
        ("kanri"@, NodeType::Project, 1)
    } else if k == 8 {
        ("tui dashboard"@, NodeType::Note, 8)
    } else if k == 9 {
        ("rest client"@, NodeType::Note, 8)
    } else if k == 10 {
        ("dotfiles"@, NodeType::Project, 1)
    } else if k == 11 {
        ("neovim config"@, NodeType::File, 11)
    } else if k == 12 {
        ("tmux config"@, NodeType::File, 11)
    } else if k == 13 {
        ("zsh / starship"@, NodeType::File, 11)
    } else if k == 14 {
        ("wezterm config"@, NodeType::File, 1)
    } else if k == 15 {
        ("Notes"@, NodeType::Cluster, 0)
    } else if k == 16 {
        ("Rust"@, NodeType::Knowledge, 16)
    } else if k == 17 {
        ("ownership & borrowing"@, NodeType::Note, 17)
    } else if k == 18 {
        ("lifetime elision"@, NodeType::Note, 17)
    } else if k == 19 {
        ("trait objects vs generics"@, NodeType::Note, 17)
    } else if k == 20 {
        ("async / Pin / Future"@, NodeType::Note, 17)
    } else if k == 21 {
        ("unsafe & FFI"@, NodeType::Note, 17)
    } else if k == 22 {
        ("Graphics"@, NodeType::Knowledge, 16)
    } else if k == 23 {
        ("vulkan pipeline"@, NodeType::Note, 23)
    } else if k == 24 {
        ("wgsl / glsl"@, NodeType::Note, 23)
    } else if k == 25 {
        ("deferred rendering"@, NodeType::Note, 23)
    } else if k == 26 {
        ("ray tracing basics"@, NodeType::Note, 23)
    } else if k == 27 {
        ("Systems Design"@, NodeType::Knowledge, 16)
    } else if k == 28 {
        ("ecs architecture"@, NodeType::Note, 28)
    } else if k == 29 {
        ("event-driven design"@, NodeType::Note, 28)
    } else if k == 30 {
        ("cache-friendly data layouts"@, NodeType::Note, 28)
    } else if k == 31 {
        ("Ideas"@, NodeType::Knowledge, 16)
    } else if k == 32 {
        ("spatial computing"@, NodeType::Note, 32)
    } else if k == 33 {
        ("ai as navigator"@, NodeType::Note, 32)
    } else if k == 34 {
        ("terminal as world"@, NodeType::Note, 32)
    } else if k == 35 {
        ("Music"@, NodeType::Cluster, 0)
    } else if k == 36 {
        ("Nujabes"@, NodeType::Artist, 36)
    } else if k == 37 {
        ("Modal Soul"@, NodeType::Album, 37)
    } else if k == 38 {
        ("Aruarian Dance"@, NodeType::Song, 38)
    } else if k == 39 {
        ("Reflection Eternal"@, NodeType::Song, 38)
    } else if k == 40 {
        ("Feather (feat. Cise Starr & Akin)"@, NodeType::Song, 38)
    } else if k == 41 {
        ("Luv(sic) Part 3 (feat. Shing02)"@, NodeType::Song, 38)
    } else if k == 42 {
        ("Hydeout Productions 1st Collection"@, NodeType::Album, 37)
    } else if k == 43 {
        ("Counting Stars"@, NodeType::Song, 43)
    } else if k == 44 {
        ("Lady Brown (feat. Cise Starr)"@, NodeType::Song, 43)
    } else if k == 45 {
        ("DJ Okawari"@, NodeType::Artist, 36)
    } else if k == 46 {
        ("Mirror"@, NodeType::Album, 46)
    } else if k == 47 {
        ("Flower Dance"@, NodeType::Song, 47)
    } else if k == 48 {
        ("Luv Letter"@, NodeType::Song, 47)
    } else if k == 49 {
        ("Moonlight"@, NodeType::Song, 47)
    } else if k == 50 {
        ("Lopazz"@, NodeType::Artist, 36)
    } else if k == 51 {
        ("Casiopea"@, NodeType::Album, 51)
    } else if k == 52 {
        ("Asayake"@, NodeType::Song, 52)
    } else if k == 53 {
        ("Galactic Funk"@, NodeType::Song, 52)
    } else if k == 54 {
        ("Takashi Kokubo"@, NodeType::Artist, 36)
    } else if k == 55 {
        ("Island of Music"@, NodeType::Album, 55)
    } else if k == 56 {
        ("Ibiza"@, NodeType::Song, 56)
    } else if k == 57 {
        ("Nitsua"@, NodeType::Artist, 36)
    } else if k == 58 {
        ("Home"@, NodeType::Album, 58)
    } else if k == 59 {
        ("Sunset"@, NodeType::Song, 59)
    } else if k == 60 {
        ("People"@, NodeType::Cluster, 0)
    } else if k == 61 {
        ("Emre"@, NodeType::Person, 61)
    } else if k == 62 {
        ("Zeynep"@, NodeType::Person, 61)
    } else if k == 63 {
        ("Arda"@, NodeType::Person, 61)
    } else if k == 64 {
        ("Hocalarimdan biri"@, NodeType::Person, 61)
    } else if k == 65 {
        ("Tasks"@, NodeType::Cluster, 0)
    } else if k == 66 {
        ("void: add wasmtime plugin loader"@, NodeType::Task, 66)
    } else if k == 67 {
        ("void: implement node search"@, NodeType::Task, 66)
    } else if k == 68 {
        ("void: write integration tests"@, NodeType::Task, 66)
    } else if k == 69 {
        ("read 'Programming Rust' ch.12-15"@, NodeType::Task, 66)
    } else if k == 70 {
        ("set up homelab backup cron"@, NodeType::Task, 66)
    } else if k == 71 {
        ("fix tmux status bar colors"@, NodeType::Task, 66)
    } else if k == 72 {
        ("Bookmarks"@, NodeType::Cluster, 0)
    } else if k == 73 {
        ("ratatui docs"@, NodeType::Bookmark, 73)
    } else if k == 74 {
        ("petgraph crate"@, NodeType::Bookmark, 73)
    } else if k == 75 {
        ("wasmtime component model"@, NodeType::Bookmark, 73)
    } else if k == 76 {
        ("Bevy ECS patterns"@, NodeType::Bookmark, 73)
    } else if k == 77 {
        ("Amit Patel - game programming patterns"@, NodeType::Bookmark, 73)
    } else if k == 78 {
        ("Chandler Carruth - back to basics (cppcon)"@, NodeType::Bookmark, 73)
    } else {
        (Seq::empty(), NodeType::Root, 0)
    }
}

/// Cross-reference `k` of the demo map (`0 <= k < 12`): the positions of the
/// node it leads from and of the node it leads to.
pub open spec fn demo_link(k: int) -> (int, int) {
    if k == 0 {
        (4, 29)
    } else if k == 1 {
        (5, 30)
    } else if k == 2 {
        (6, 22)
    } else if k == 3 {
        (3, 21)
    } else if k == 4 {
        (26, 24)
    } else if k == 5 {
        (33, 5)
    } else if k == 6 {
        (35, 4)
    } else if k == 7 {
        (34, 6)
    } else if k == 8 {
        (41, 48)
    } else if k == 9 {
        (37, 46)
    } else if k == 10 {
        (62, 67)
    } else if k == 11 {
        (63, 70)
    } else {
        (0, 0)
    }
}

/// The containment edges of the demo map in the order they are added: entry
/// `j` is filed under its parent right after it is created.
pub open spec fn demo_contains() -> Seq<(int, int, Relation)> {
    Seq::new(79, |j: int| (demo_entry(j).2, j + 1, Relation::Contains))
}

/// The cross-references of the demo map in the order they are added.
pub open spec fn demo_refs() -> Seq<(int, int, Relation)> {
    Seq::new(12, |j: int| (demo_link(j).0, demo_link(j).1, Relation::References))
}

/// Every edge of the demo map, as positions, in the order it is added: the
/// 79 containment edges, then the 12 cross-references.
pub open spec fn demo_history() -> Seq<(int, int, Relation)> {
    demo_contains() + demo_refs()
}

/// The edges of `hist` that leave position `k`, newest first, each as its
/// target position and relation.
pub open spec fn hist_out(hist: Seq<(int, int, Relation)>, k: int) -> Seq<(int, Relation)>
    decreases hist.len(),
{
    if hist.len() == 0 {
        Seq::empty()
    } else {
        let e = hist.last();
        let rest = hist_out(hist.drop_last(), k);
        if e.0 == k {
            seq![(e.1, e.2)] + rest
        } else {
            rest
        }
    }
}

/// The edges of `hist` that enter position `k`, newest first, each as its
/// source position.
pub open spec fn hist_in(hist: Seq<(int, int, Relation)>, k: int) -> Seq<int>
    decreases hist.len(),
{
    if hist.len() == 0 {
        Seq::empty()
    } else {
        let e = hist.last();
        let rest = hist_in(hist.drop_last(), k);
        if e.1 == k {
            seq![e.0] + rest
        } else {
            rest
        }
    }
}

/// An outgoing list of the store, as targets and relations.
pub open spec fn out_view(s: Seq<(nat, nat, GraphEdge)>) -> Seq<(nat, Relation)> {
    s.map_values(|o: (nat, nat, GraphEdge)| (o.0, o.2.relation))
}

/// An incoming list of the store, as sources.
pub open spec fn in_view(s: Seq<(nat, nat)>) -> Seq<nat> {
    s.map_values(|p: (nat, nat)| p.0)
}

/// Targets and relations given by position, as node indices.
pub open spec fn placed_out(ids: Seq<usize>, s: Seq<(int, Relation)>) -> Seq<(nat, Relation)> {
    s.map_values(|p: (int, Relation)| (ids[p.0] as nat, p.1))
}

/// Positions as node indices.
pub open spec fn placed(ids: Seq<usize>, s: Seq<int>) -> Seq<nat> {
    s.map_values(|p: int| ids[p] as nat)
}

/// The graph holds exactly the nodes at the indices `ids` (position to node
/// index) and exactly the edges of `hist` (given by positions): each node's
/// outgoing and incoming lists are its edges in `hist`, newest first.
pub open spec fn built_from(g: WorldGraph, ids: Seq<usize>, hist: Seq<(int, int, Relation)>) -> bool {
    &&& forall|k: int, j: int| 0 <= k < j < ids.len() ==> #[trigger] ids[k] != #[trigger] ids[j]
    &&& forall|k: int| 0 <= k < ids.len() ==> g.has_node(#[trigger] ids[k] as nat)
    &&& forall|i: nat| #[trigger] g.has_node(i) ==> exists|q: int| 0 <= q < ids.len() && ids[q] as nat == i
    &&& g.slots().dom().len() == ids.len()
    &&& g.edge_total() == hist.len()
    &&& forall|t: int| 0 <= t < hist.len() ==> 0 <= #[trigger] hist[t].0 < ids.len() && 0 <= hist[t].1 < ids.len()
    &&& forall|k: int|
        0 <= k < ids.len() ==> out_view(g.slots()[#[trigger] ids[k] as nat].1) == placed_out(ids, hist_out(hist, k))
    &&& forall|k: int|
        0 <= k < ids.len() ==> in_view(g.slots()[#[trigger] ids[k] as nat].2) == placed(ids, hist_in(hist, k))
}

/// The graph is the demo map laid out at `ids` under the root `root`: 80
/// nodes, the root first and entry `k` at position `k + 1` with its label and
/// kind, and exactly the edges of `demo_history`.
pub open spec fn demo_layout(g: WorldGraph, root: nat, ids: Seq<usize>) -> bool {
    &&& ids.len() == 80
    &&& ids[0] as nat == root
    &&& built_from(g, ids, demo_history())
    &&& forall|k: int|
        1 <= k < 80 ==> (#[trigger] g.node_at(ids[k] as nat)).label@ == demo_entry(k - 1).0
            && g.node_at(ids[k] as nat).node_type == demo_entry(k - 1).1
}

/// The graph is the demo map under the root `root`.
pub open spec fn demo_world(g: WorldGraph, root: nat) -> bool {
    exists|ids: Seq<usize>| #[trigger] demo_layout(g, root, ids)
}

/// Every position in the lists of a history whose positions are below `n`
/// is below `n`.
proof fn lemma_hist_bounds(hist: Seq<(int, int, Relation)>, k: int, n: int)
    requires
        forall|t: int| 0 <= t < hist.len() ==> 0 <= #[trigger] hist[t].0 < n && 0 <= hist[t].1 < n,
    ensures
        forall|i: int| 0 <= i < hist_out(hist, k).len() ==> 0 <= #[trigger] hist_out(hist, k)[i].0 < n,
        forall|i: int| 0 <= i < hist_in(hist, k).len() ==> 0 <= #[trigger] hist_in(hist, k)[i] < n,
    decreases hist.len(),
{
    if hist.len() > 0 {
        let h = hist.drop_last();
        assert forall|t: int| 0 <= t < h.len() implies 0 <= #[trigger] h[t].0 < n && 0 <= h[t].1 < n by {
            assert(h[t] == hist[t]);
        }
        lemma_hist_bounds(h, k, n);
        let e = hist.last();
        assert(hist[hist.len() - 1] == e);
        let o = hist_out(hist, k);
        assert forall|i: int| 0 <= i < o.len() implies 0 <= #[trigger] o[i].0 < n by {
            if e.0 == k && i > 0 {
                assert(o[i] == hist_out(h, k)[i - 1]);
            }
        }
        let p = hist_in(hist, k);
        assert forall|i: int| 0 <= i < p.len() implies 0 <= #[trigger] p[i] < n by {
            if e.1 == k && i > 0 {
                assert(p[i] == hist_in(h, k)[i - 1]);
            }
        }
    }
}

/// Position `k` has no edges in a history whose positions are all below it.
proof fn lemma_hist_none(hist: Seq<(int, int, Relation)>, k: int)
    requires
        forall|t: int| 0 <= t < hist.len() ==> #[trigger] hist[t].0 < k && hist[t].1 < k,
    ensures
        hist_out(hist, k) == Seq::<(int, Relation)>::empty(),
        hist_in(hist, k) == Seq::<int>::empty(),
    decreases hist.len(),
{
    if hist.len() > 0 {
        let h = hist.drop_last();
        assert forall|t: int| 0 <= t < h.len() implies #[trigger] h[t].0 < k && h[t].1 < k by {
            assert(h[t] == hist[t]);
        }
        lemma_hist_none(h, k);
        assert(hist[hist.len() - 1] == hist.last());
    }
}

/// Adding a node at a fresh index places it at the next position, with no
/// edges, and keeps every other node.
pub proof fn lemma_built_add_node(
    a: WorldGraph,
    b: WorldGraph,
    ids: Seq<usize>,
    hist: Seq<(int, int, Relation)>,
    node: GraphNode,
    idx: usize,
)
    requires
        a.wf(),
        built_from(a, ids, hist),
        node_added(a, b, node, idx),
    ensures
        built_from(b, ids.push(idx), hist),
        forall|k: int| 0 <= k < ids.len() ==> b.node_at(#[trigger] ids[k] as nat) == a.node_at(ids[k] as nat),
        b.node_at(idx as nat) == node,
{
    a.lemma_wf();
    let n = ids.len() as int;
    let ids2 = ids.push(idx);
    let m = a.slots();
    let m2 = b.slots();
    assert forall|k: int, j: int| 0 <= k < j < ids2.len() implies #[trigger] ids2[k] != #[trigger] ids2[j] by {
        if j == n {
            assert(a.has_node(ids[k] as nat));
        } else {
            assert(ids2[j] == ids[j]);
        }
    }
    assert forall|k: int| 0 <= k < ids2.len() implies b.has_node(#[trigger] ids2[k] as nat) by {
        if k < n {
            assert(ids2[k] == ids[k]);
            assert(a.has_node(ids[k] as nat));
        }
    }
    assert forall|k: int| 0 <= k < ids.len() implies b.node_at(#[trigger] ids[k] as nat) == a.node_at(
        ids[k] as nat,
    ) by {
        assert(a.has_node(ids[k] as nat));
    }
    assert forall|t: int| 0 <= t < hist.len() implies 0 <= #[trigger] hist[t].0 < ids2.len() && 0
        <= hist[t].1 < ids2.len() by {
        assert(0 <= hist[t].0 < ids.len());
    }
    assert forall|k: int|
        0 <= k < ids2.len() implies out_view(m2[#[trigger] ids2[k] as nat].1) == placed_out(
        ids2,
        hist_out(hist, k),
    ) && in_view(m2[ids2[k] as nat].2) == placed(ids2, hist_in(hist, k)) by {
        if k < n {
            assert(ids2[k] == ids[k]);
            assert(a.has_node(ids[k] as nat));
            assert(m2[ids[k] as nat] == m[ids[k] as nat]);
            assert(out_view(m[ids[k] as nat].1) == placed_out(ids, hist_out(hist, k)));
            assert(in_view(m[ids[k] as nat].2) == placed(ids, hist_in(hist, k)));
            lemma_hist_bounds(hist, k, n);
            assert(placed_out(ids2, hist_out(hist, k)) =~= placed_out(ids, hist_out(hist, k)));
            assert(placed(ids2, hist_in(hist, k)) =~= placed(ids, hist_in(hist, k)));
        } else {
            assert forall|t: int| 0 <= t < hist.len() implies #[trigger] hist[t].0 < k && hist[t].1 < k by {
                assert(0 <= hist[t].0 < ids.len());
            }
            lemma_hist_none(hist, k);
            assert(out_view(m2[idx as nat].1) =~= Seq::<(nat, Relation)>::empty());
            assert(in_view(m2[idx as nat].2) =~= Seq::<nat>::empty());
            assert(placed_out(ids2, hist_out(hist, k)) =~= Seq::<(nat, Relation)>::empty());
            assert(placed(ids2, hist_in(hist, k)) =~= Seq::<nat>::empty());
        }
    }
    assert(m2.dom() =~= m.dom().insert(idx as nat));
    assert forall|i: nat| #[trigger] b.has_node(i) implies exists|q: int| 0 <= q < ids2.len() && ids2[q] as nat == i by {
        if i == idx as nat {
            assert(ids2[n] == idx);
        } else {
            assert(a.has_node(i));
            let q = choose|q: int| 0 <= q < ids.len() && ids[q] as nat == i;
            assert(ids2[q] == ids[q]);
        }
    }
}

/// Adding an edge between the nodes at positions `x` and `y` puts it in
/// front of their lists, as the history with the edge appended says.
pub proof fn lemma_built_add_edge(
    a: WorldGraph,
    b: WorldGraph,
    ids: Seq<usize>,
    hist: Seq<(int, int, Relation)>,
    x: int,
    y: int,
    e: usize,
    edge: GraphEdge,
)
    requires
        built_from(a, ids, hist),
        0 <= x < ids.len(),
        0 <= y < ids.len(),
        edge_added(a, b, ids[x], ids[y], e, edge),
    ensures
        built_from(b, ids, hist.push((x, y, edge.relation))),
        forall|k: int| 0 <= k < ids.len() ==> b.node_at(#[trigger] ids[k] as nat) == a.node_at(ids[k] as nat),
{
    let h2 = hist.push((x, y, edge.relation));
    let m = a.slots();
    let m2 = b.slots();
    assert(h2.drop_last() =~= hist);
    assert(h2.last() == (x, y, edge.relation));
    assert(a.has_node(ids[x] as nat));
    assert(a.has_node(ids[y] as nat));
    assert(m2.dom() =~= m.dom());
    assert forall|i: nat| #[trigger] b.has_node(i) implies exists|q: int| 0 <= q < ids.len() && ids[q] as nat == i by {
        assert(a.has_node(i));
    }
    assert forall|k: int| 0 <= k < ids.len() implies b.has_node(#[trigger] ids[k] as nat) by {
        assert(a.has_node(ids[k] as nat));
    }
    assert forall|k: int| 0 <= k < ids.len() implies b.node_at(#[trigger] ids[k] as nat) == a.node_at(
        ids[k] as nat,
    ) by {
        assert(a.has_node(ids[k] as nat));
    }
    assert forall|t: int| 0 <= t < h2.len() implies 0 <= #[trigger] h2[t].0 < ids.len() && 0 <= h2[t].1
        < ids.len() by {
        if t < hist.len() {
            assert(h2[t] == hist[t]);
        }
    }
    assert forall|k: int|
        0 <= k < ids.len() implies out_view(m2[#[trigger] ids[k] as nat].1) == placed_out(
        ids,
        hist_out(h2, k),
    ) && in_view(m2[ids[k] as nat].2) == placed(ids, hist_in(h2, k)) by {
        let i = ids[k] as nat;
        assert(out_view(m[i].1) == placed_out(ids, hist_out(hist, k)));
        assert(in_view(m[i].2) == placed(ids, hist_in(hist, k)));
        if k != x {
            assert(ids[k] != ids[x]);
        }
        if k != y {
            assert(ids[k] != ids[y]);
        }
        if k == x {
            assert(hist_out(h2, k) == seq![(y, edge.relation)] + hist_out(hist, k));
            assert(m2[i].1 == seq![(ids[y] as nat, e as nat, edge)] + m[i].1);
            let lhs = out_view(m2[i].1);
            let rhs = placed_out(ids, hist_out(h2, k));
            assert(out_view(m[i].1).len() == placed_out(ids, hist_out(hist, k)).len());
            assert(lhs.len() == rhs.len());
            assert forall|j: int| 0 <= j < lhs.len() implies lhs[j] == rhs[j] by {
                if j > 0 {
                    assert(lhs[j] == out_view(m[i].1)[j - 1]);
                    assert(rhs[j] == placed_out(ids, hist_out(hist, k))[j - 1]);
                }
            }
            assert(lhs =~= rhs);
        } else {
            assert(out_view(m2[i].1) =~= placed_out(ids, hist_out(h2, k)));
        }
        if k == y {
            assert(hist_in(h2, k) == seq![x] + hist_in(hist, k));
            assert(m2[i].2 == seq![(ids[x] as nat, e as nat)] + m[i].2);
            let lhs = in_view(m2[i].2);
            let rhs = placed(ids, hist_in(h2, k));
            assert(in_view(m[i].2).len() == placed(ids, hist_in(hist, k)).len());
            assert(lhs.len() == rhs.len());
            assert forall|j: int| 0 <= j < lhs.len() implies lhs[j] == rhs[j] by {
                if j > 0 {
                    assert(lhs[j] == in_view(m[i].2)[j - 1]);
                    assert(rhs[j] == placed(ids, hist_in(hist, k))[j - 1]);
                }
            }
            assert(lhs =~= rhs);
        } else {
            assert(in_view(m2[i].2) =~= placed(ids, hist_in(h2, k)));
        }
    }
}

/// A rank for the positions of the demo map that every edge of it climbs.
pub open spec fn demo_rank(k: int) -> int {
    if k == 24 {
        100
    } else if k == 5 {
        101
    } else if k == 30 {
        102
    } else if k == 4 {
        103
    } else if k == 29 {
        104
    } else if k == 6 {
        105
    } else if k == 22 {
        106
    } else {
        k
    }
}

/// The demo map's parent of each entry comes before it.
proof fn lemma_demo_parent_earlier()
    ensures
        forall|j: int| 0 <= j < 79 ==> 0 <= #[trigger] demo_entry(j).2 <= j,
{
}

/// The edges of the demo map: 91 of them, the first 79 containment edges
/// and the last 12 cross-references. Each node other than the root has
/// exactly one containment edge coming in, from the node it is filed under,
/// which comes earlier; so the containment edges form a tree under the root.
/// Each cross-reference joins two different nodes, neither of them the root.
pub proof fn law_demo_edges()
    ensures
        demo_history().len() == 91,
        forall|t: int| 0 <= t < 79 ==> (#[trigger] demo_history()[t]).2 == Relation::Contains,
        forall|t: int| 79 <= t < 91 ==> (#[trigger] demo_history()[t]).2 == Relation::References,
        forall|k: int|
            1 <= k < 80 ==> demo_history()[k - 1] == (demo_entry(k - 1).2, k, Relation::Contains)
                && 0 <= #[trigger] demo_entry(k - 1).2 < k,
        forall|t: int, u: int|
            0 <= t < 91 && 0 <= u < 91 && (#[trigger] demo_history()[t]).2 == Relation::Contains
                && (#[trigger] demo_history()[u]).2 == Relation::Contains && demo_history()[t].1
                == demo_history()[u].1 ==> t == u,
        forall|t: int|
            0 <= t < 91 && (#[trigger] demo_history()[t]).2 == Relation::Contains ==> 1
                <= demo_history()[t].1 < 80 && 0 <= demo_history()[t].0 < demo_history()[t].1,
        forall|t: int|
            79 <= t < 91 ==> 1 <= (#[trigger] demo_history()[t]).0 < 80 && 1 <= demo_history()[t].1
                < 80 && demo_history()[t].0 != demo_history()[t].1,
{
    lemma_demo_parent_earlier();
    let h = demo_history();
    assert forall|t: int| 0 <= t < 79 implies (#[trigger] h[t]) == (demo_entry(t).2, t + 1, Relation::Contains) by {
        assert(h[t] == demo_contains()[t]);
    }
    assert forall|t: int| 79 <= t < 91 implies (#[trigger] h[t]) == (demo_link(t - 79).0, demo_link(t - 79).1, Relation::References) by {
        assert(h[t] == demo_refs()[t - 79]);
    }
    assert forall|t: int| 79 <= t < 91 implies 1 <= (#[trigger] h[t]).0 < 80 && 1 <= h[t].1 < 80 && h[t].0 != h[t].1 by {
        assert(h[t] == demo_refs()[t - 79]);
    }
}

/// No edge of the demo map closes a cycle: every edge leads from a position
/// of lower rank to one of higher rank.
pub proof fn law_demo_acyclic()
    ensures
        forall|t: int|
            0 <= t < 91 ==> demo_rank((#[trigger] demo_history()[t]).0) < demo_rank(demo_history()[t].1),
{
    let h = demo_history();
    assert forall|t: int| 0 <= t < 91 implies demo_rank((#[trigger] h[t]).0) < demo_rank(h[t].1) by {
        if t < 79 {
            assert(h[t] == demo_contains()[t]);
        } else {
            assert(h[t] == demo_refs()[t - 79]);
        }
    }
}

/// The children that the first `n` containment edges of the demo map give
/// position `p`, newest first.
pub open spec fn kids_upto(p: int, n: int) -> Seq<(int, Relation)>
    decreases n,
{
    if n <= 0 {
        Seq::empty()
    } else if demo_entry(n - 1).2 == p {
        seq![(n, Relation::Contains)] + kids_upto(p, n - 1)
    } else {
        kids_upto(p, n - 1)
    }
}

/// The outgoing edges of two histories one after the other: the later
/// history's edges come first.
proof fn lemma_hist_out_concat(h1: Seq<(int, int, Relation)>, h2: Seq<(int, int, Relation)>, k: int)
    ensures
        hist_out(h1 + h2, k) == hist_out(h2, k) + hist_out(h1, k),
    decreases h2.len(),
{
    if h2.len() == 0 {
        assert(h1 + h2 =~= h1);
        assert(hist_out(h2, k) + hist_out(h1, k) =~= hist_out(h1, k));
    } else {
        assert((h1 + h2).drop_last() =~= h1 + h2.drop_last());
        assert((h1 + h2).last() == h2.last());
        lemma_hist_out_concat(h1, h2.drop_last(), k);
        let e = h2.last();
        if e.0 == k {
            assert(seq![(e.1, e.2)] + (hist_out(h2.drop_last(), k) + hist_out(h1, k)) =~= (seq![
                (e.1, e.2),
            ] + hist_out(h2.drop_last(), k)) + hist_out(h1, k));
        }
    }
}

/// A position that no edge of the history leaves has no outgoing edges.
proof fn lemma_hist_out_no_source(h: Seq<(int, int, Relation)>, k: int)
    requires
        forall|t: int| 0 <= t < h.len() ==> (#[trigger] h[t]).0 != k,
    ensures
        hist_out(h, k) == Seq::<(int, Relation)>::empty(),
    decreases h.len(),
{
    if h.len() > 0 {
        let d = h.drop_last();
        assert forall|t: int| 0 <= t < d.len() implies (#[trigger] d[t]).0 != k by {
            assert(d[t] == h[t]);
        }
        lemma_hist_out_no_source(d, k);
        assert(h[h.len() - 1] == h.last());
    }
}

/// The first `n` containment edges of the demo map give `p` the children
/// `kids_upto(p, n)`.
proof fn lemma_contains_kids(p: int, n: int)
    requires
        0 <= n <= 79,
    ensures
        hist_out(demo_contains().take(n), p) == kids_upto(p, n),
    decreases n,
{
    if n > 0 {
        let c = demo_contains().take(n);
        assert(c.drop_last() =~= demo_contains().take(n - 1));
        assert(c.last() == (demo_entry(n - 1).2, n, Relation::Contains));
        lemma_contains_kids(p, n - 1);
    }
}

/// The root's outgoing edges in the demo map, as positions.
proof fn lemma_demo_root_out()
    ensures
        hist_out(demo_history(), 0) == seq![
            (73int, Relation::Contains),
            (66int, Relation::Contains),
            (61int, Relation::Contains),
            (36int, Relation::Contains),
            (16int, Relation::Contains),
            (1int, Relation::Contains),
        ],
{
    lemma_hist_out_concat(demo_contains(), demo_refs(), 0);
    assert forall|t: int| 0 <= t < demo_refs().len() implies (#[trigger] demo_refs()[t]).0 != 0 by {}
    lemma_hist_out_no_source(demo_refs(), 0);
    lemma_contains_kids(0, 79);
    assert(demo_contains().take(79) =~= demo_contains());
    assert(Seq::<(int, Relation)>::empty() + hist_out(demo_contains(), 0) =~= hist_out(demo_contains(), 0));
    reveal_with_fuel(kids_upto, 80);
    assert(kids_upto(0, 79) =~= seq![
        (73int, Relation::Contains),
        (66int, Relation::Contains),
        (61int, Relation::Contains),
        (36int, Relation::Contains),
        (16int, Relation::Contains),
        (1int, Relation::Contains),
    ]);
}

/// The root of the demo map has six children, newest first: the clusters
/// Bookmarks, Tasks, People, Music, Notes and Code.
pub proof fn law_demo_root_children(g: WorldGraph, root: nat, ids: Seq<usize>)
    requires
        demo_layout(g, root, ids),
    ensures
        out_view(g.slots()[root].1) == seq![
            (ids[73] as nat, Relation::Contains),
            (ids[66] as nat, Relation::Contains),
            (ids[61] as nat, Relation::Contains),
            (ids[36] as nat, Relation::Contains),
            (ids[16] as nat, Relation::Contains),
            (ids[1] as nat, Relation::Contains),
        ],
        g.node_at(ids[73] as nat).label@ == "Bookmarks"@,
        g.node_at(ids[66] as nat).label@ == "Tasks"@,
        g.node_at(ids[61] as nat).label@ == "People"@,
        g.node_at(ids[36] as nat).label@ == "Music"@,
        g.node_at(ids[16] as nat).label@ == "Notes"@,
        g.node_at(ids[1] as nat).label@ == "Code"@,
        g.node_at(ids[73] as nat).node_type == NodeType::Cluster,
        g.node_at(ids[66] as nat).node_type == NodeType::Cluster,
        g.node_at(ids[61] as nat).node_type == NodeType::Cluster,
        g.node_at(ids[36] as nat).node_type == NodeType::Cluster,
        g.node_at(ids[16] as nat).node_type == NodeType::Cluster,
        g.node_at(ids[1] as nat).node_type == NodeType::Cluster,
{
    lemma_demo_root_out();
    assert(g.node_at(ids[73] as nat).label@ == demo_entry(72).0);
    assert(g.node_at(ids[66] as nat).label@ == demo_entry(65).0);
    assert(g.node_at(ids[61] as nat).label@ == demo_entry(60).0);
    assert(g.node_at(ids[36] as nat).label@ == demo_entry(35).0);
    assert(g.node_at(ids[16] as nat).label@ == demo_entry(15).0);
    assert(g.node_at(ids[1] as nat).label@ == demo_entry(0).0);
    assert(placed_out(ids, hist_out(demo_history(), 0)) =~= seq![
        (ids[73] as nat, Relation::Contains),
        (ids[66] as nat, Relation::Contains),
        (ids[61] as nat, Relation::Contains),
        (ids[36] as nat, Relation::Contains),
        (ids[16] as nat, Relation::Contains),
        (ids[1] as nat, Relation::Contains),
    ]);
}

/// Each outgoing edge of a position comes from an edge of the history.
#[verifier::spinoff_prover]
proof fn lemma_hist_out_sources(h: Seq<(int, int, Relation)>, k: int)
    ensures
        forall|i: int|
            0 <= i < hist_out(h, k).len() ==> exists|t: int|
                0 <= t < h.len() && (#[trigger] h[t]).0 == k && (h[t].1, h[t].2) == #[trigger] hist_out(h, k)[i],
    decreases h.len(),
{
    if h.len() > 0 {
        let d = h.drop_last();
        lemma_hist_out_sources(d, k);
        let e = h.last();
        let o = hist_out(h, k);
        assert forall|i: int| 0 <= i < o.len() implies exists|t: int|
            0 <= t < h.len() && (#[trigger] h[t]).0 == k && (h[t].1, h[t].2) == #[trigger] o[i] by {
            if e.0 == k && i == 0 {
                assert(h[h.len() - 1] == e);
            } else {
                let j = if e.0 == k { i - 1 } else { i };
                assert(o[i] == hist_out(d, k)[j]);
                let t = choose|t: int| 0 <= t < d.len() && (#[trigger] d[t]).0 == k && (d[t].1, d[t].2) == hist_out(d, k)[j];
                assert(h[t] == d[t]);
            }
        }
    }
}

/// Every edge of the history is among the outgoing edges of its source.
proof fn lemma_hist_out_has(h: Seq<(int, int, Relation)>, t: int)
    requires
        0 <= t < h.len(),
    ensures
        hist_out(h, h[t].0).contains((h[t].1, h[t].2)),
    decreases h.len(),
{
    let d = h.drop_last();
    let k = h[t].0;
    if t == h.len() - 1 {
        assert(hist_out(h, k)[0] == (h[t].1, h[t].2));
    } else {
        assert(d[t] == h[t]);
        lemma_hist_out_has(d, t);
        let i = choose|i: int| 0 <= i < hist_out(d, k).len() && hist_out(d, k)[i] == (h[t].1, h[t].2);
        if h.last().0 == k {
            assert(hist_out(h, k)[i + 1] == (h[t].1, h[t].2));
        } else {
            assert(hist_out(h, k)[i] == (h[t].1, h[t].2));
        }
    }
}

/// In a graph built from a history, an edge joins the nodes at the positions
/// of some edge of the history, and each edge of the history is an edge.
#[verifier::spinoff_prover]
proof fn lemma_built_step(g: WorldGraph, ids: Seq<usize>, h: Seq<(int, int, Relation)>, a: nat, b: nat)
    requires
        built_from(g, ids, h),
    ensures
        step(g.slots(), a, b) ==> exists|t: int|
            0 <= t < h.len() && ids[(#[trigger] h[t]).0] as nat == a && ids[h[t].1] as nat == b,
        forall|t: int| 0 <= t < h.len() ==> step(g.slots(), ids[(#[trigger] h[t]).0] as nat, ids[h[t].1] as nat),
{
    let m = g.slots();
    if step(m, a, b) {
        let c = slot_children(m, a);
        let i = choose|i: int| 0 <= i < c.len() && c[i] == b;
        assert(m.dom().contains(a));
        assert(g.has_node(a));
        let p = choose|q: int| 0 <= q < ids.len() && ids[q] as nat == a;
        assert(out_view(m[ids[p] as nat].1) == placed_out(ids, hist_out(h, p)));
        assert(out_view(m[a].1)[i].0 == b);
        lemma_hist_out_sources(h, p);
        let o = hist_out(h, p);
        assert(o[i] == o[i]);
        let t = choose|t: int| 0 <= t < h.len() && (#[trigger] h[t]).0 == p && (h[t].1, h[t].2) == #[trigger] o[i];
        assert(ids[h[t].1] as nat == b);
    }
    assert forall|t: int| 0 <= t < h.len() implies step(m, ids[(#[trigger] h[t]).0] as nat, ids[h[t].1] as nat) by {
        let p = h[t].0;
        lemma_hist_out_has(h, t);
        let o = hist_out(h, p);
        let i = choose|i: int| 0 <= i < o.len() && o[i] == (h[t].1, h[t].2);
        assert(0 <= p < ids.len());
        assert(out_view(m[ids[p] as nat].1) == placed_out(ids, o));
        assert(out_view(m[ids[p] as nat].1)[i] == (ids[h[t].1] as nat, h[t].2));
        assert(g.has_node(ids[p] as nat));
        assert(slot_children(m, ids[p] as nat)[i] == ids[h[t].1] as nat);
    }
}

/// Every node of the demo map can be reached from the root, the node at
/// position `k` within `k` edges, along the containment edges.
pub proof fn law_demo_reachable(g: WorldGraph, root: nat, ids: Seq<usize>, k: int)
    requires
        demo_layout(g, root, ids),
        0 <= k < 80,
    ensures
        reach_within(g.slots(), root, ids[k] as nat, k as nat),
    decreases k,
{
    if k > 0 {
        law_demo_edges();
        let p = demo_entry(k - 1).2;
        law_demo_reachable(g, root, ids, p);
        lemma_built_step(g, ids, demo_history(), root, root);
        assert(step(g.slots(), ids[demo_history()[k - 1].0] as nat, ids[demo_history()[k - 1].1] as nat));
        crate::graph::reach::lemma_reach_mono(g.slots(), root, ids[p] as nat, p as nat, (k - 1) as nat);
        crate::graph::reach::lemma_reach_step(g.slots(), root, ids[p] as nat, ids[k] as nat, (k - 1) as nat);
    }
}

/// In the demo map the node at position `p` has a containment edge to the
/// node at position `k` exactly when `k` is not the root and is filed under
/// `p`: each node other than the root has one parent, the root has none.
pub proof fn law_demo_contains_parent(g: WorldGraph, root: nat, ids: Seq<usize>, p: int, k: int)
    requires
        demo_layout(g, root, ids),
        0 <= p < 80,
        0 <= k < 80,
    ensures
        out_view(g.slots()[ids[p] as nat].1).contains((ids[k] as nat, Relation::Contains)) <==> (1 <= k
            && p == demo_entry(k - 1).2),
{
    let h = demo_history();
    law_demo_edges();
    let o = hist_out(h, p);
    assert(out_view(g.slots()[ids[p] as nat].1) == placed_out(ids, o));
    if 1 <= k && p == demo_entry(k - 1).2 {
        assert(h[k - 1] == (demo_entry(k - 1).2, k, Relation::Contains));
        lemma_hist_out_has(h, k - 1);
        let i = choose|i: int| 0 <= i < o.len() && o[i] == (k, Relation::Contains);
        assert(placed_out(ids, o)[i] == (ids[k] as nat, Relation::Contains));
    }
    if out_view(g.slots()[ids[p] as nat].1).contains((ids[k] as nat, Relation::Contains)) {
        let i = choose|i: int|
            0 <= i < placed_out(ids, o).len() && placed_out(ids, o)[i] == (ids[k] as nat, Relation::Contains);
        lemma_hist_out_sources(h, p);
        let t = choose|t: int| 0 <= t < h.len() && (#[trigger] h[t]).0 == p && (h[t].1, h[t].2) == #[trigger] o[i];
        let q = h[t].1;
        assert(0 <= q < 80);
        assert(ids[q] as nat == ids[k] as nat);
        assert(q == k) by {
            if q < k {
                assert(ids[q] != ids[k]);
            } else if k < q {
                assert(ids[k] != ids[q]);
            }
        }
        assert(t < 79);
        assert(1 <= k);
        assert(h[k - 1] == (demo_entry(k - 1).2, k, Relation::Contains));
        assert(t == k - 1);
    }
}

/// Entry `t` of the demo map as the map lists it, by labels: the label and
/// kind of the node, and the label of the node it is filed under ("VOID" is
/// the root).
pub open spec fn demo_filing(t: int) -> (Seq<char>, NodeType, Seq<char>) {
    if t == 0 {
        ("Code"@, NodeType::Cluster, "VOID"@)
    } else if t == 1 {
        ("void"@, NodeType::Project, "Code"@)
    } else if t == 2 {
        ("core engine"@, NodeType::Note, "void"@)
    } else if t == 3 {
        ("graph renderer"@, NodeType::Note, "void"@)
    } else if t == 4 {
        ("camera system"@, NodeType::Note, "void"@)
    } else if t == 5 {
        ("plugin api"@, NodeType::Note, "void"@)
    } else if t == 6 {
        ("animation engine"@, NodeType::Note, "void"@)
    } else if t == 7 {
        ("kanri"@, NodeType::Project, "Code"@)
    } else if t == 8 {
        ("tui dashboard"@, NodeType::Note, "kanri"@)
    } else if t == 9 {
        ("rest client"@, NodeType::Note, "kanri"@)
    } else if t == 10 {
        ("dotfiles"@, NodeType::Project, "Code"@)
    } else if t == 11 {
        ("neovim config"@, NodeType::File, "dotfiles"@)
    } else if t == 12 {
        ("tmux config"@, NodeType::File, "dotfiles"@)
    } else if t == 13 {
        ("zsh / starship"@, NodeType::File, "dotfiles"@)
    } else if t == 14 {
        ("wezterm config"@, NodeType::File, "Code"@)
    } else if t == 15 {
        ("Notes"@, NodeType::Cluster, "VOID"@)
    } else if t == 16 {
        ("Rust"@, NodeType::Knowledge, "Notes"@)
    } else if t == 17 {
        ("ownership & borrowing"@, NodeType::Note, "Rust"@)
    } else if t == 18 {
        ("lifetime elision"@, NodeType::Note, "Rust"@)
    } else if t == 19 {
        ("trait objects vs generics"@, NodeType::Note, "Rust"@)
    } else if t == 20 {
        ("async / Pin / Future"@, NodeType::Note, "Rust"@)
    } else if t == 21 {
        ("unsafe & FFI"@, NodeType::Note, "Rust"@)
    } else if t == 22 {
        ("Graphics"@, NodeType::Knowledge, "Notes"@)
    } else if t == 23 {
        ("vulkan pipeline"@, NodeType::Note, "Graphics"@)
    } else if t == 24 {
        ("wgsl / glsl"@, NodeType::Note, "Graphics"@)
    } else if t == 25 {
        ("deferred rendering"@, NodeType::Note, "Graphics"@)
    } else if t == 26 {
        ("ray tracing basics"@, NodeType::Note, "Graphics"@)
    } else if t == 27 {
        ("Systems Design"@, NodeType::Knowledge, "Notes"@)
    } else if t == 28 {
        ("ecs architecture"@, NodeType::Note, "Systems Design"@)
    } else if t == 29 {
        ("event-driven design"@, NodeType::Note, "Systems Design"@)
    } else if t == 30 {
        ("cache-friendly data layouts"@, NodeType::Note, "Systems Design"@)
    } else if t == 31 {
        ("Ideas"@, NodeType::Knowledge, "Notes"@)
    } else if t == 32 {
        ("spatial computing"@, NodeType::Note, "Ideas"@)
    } else if t == 33 {
        ("ai as navigator"@, NodeType::Note, "Ideas"@)
    } else if t == 34 {
        ("terminal as world"@, NodeType::Note, "Ideas"@)
    } else if t == 35 {
        ("Music"@, NodeType::Cluster, "VOID"@)
    } else if t == 36 {
        ("Nujabes"@, NodeType::Artist, "Music"@)
    } else if t == 37 {
        ("Modal Soul"@, NodeType::Album, "Nujabes"@)
    } else if t == 38 {
        ("Aruarian Dance"@, NodeType::Song, "Modal Soul"@)
    } else if t == 39 {
        ("Reflection Eternal"@, NodeType::Song, "Modal Soul"@)
    } else if t == 40 {
        ("Feather (feat. Cise Starr & Akin)"@, NodeType::Song, "Modal Soul"@)
    } else if t == 41 {
        ("Luv(sic) Part 3 (feat. Shing02)"@, NodeType::Song, "Modal Soul"@)
    } else if t == 42 {
        ("Hydeout Productions 1st Collection"@, NodeType::Album, "Nujabes"@)
    } else if t == 43 {
        ("Counting Stars"@, NodeType::Song, "Hydeout Productions 1st Collection"@)
    } else if t == 44 {
        ("Lady Brown (feat. Cise Starr)"@, NodeType::Song, "Hydeout Productions 1st Collection"@)
    } else if t == 45 {
        ("DJ Okawari"@, NodeType::Artist, "Music"@)
    } else if t == 46 {
        ("Mirror"@, NodeType::Album, "DJ Okawari"@)
    } else if t == 47 {
        ("Flower Dance"@, NodeType::Song, "Mirror"@)
    } else if t == 48 {
        ("Luv Letter"@, NodeType::Song, "Mirror"@)
    } else if t == 49 {
        ("Moonlight"@, NodeType::Song, "Mirror"@)
    } else if t == 50 {
        ("Lopazz"@, NodeType::Artist, "Music"@)
    } else if t == 51 {
        ("Casiopea"@, NodeType::Album, "Lopazz"@)
    } else if t == 52 {
        ("Asayake"@, NodeType::Song, "Casiopea"@)
    } else if t == 53 {
        ("Galactic Funk"@, NodeType::Song, "Casiopea"@)
    } else if t == 54 {
        ("Takashi Kokubo"@, NodeType::Artist, "Music"@)
    } else if t == 55 {
        ("Island of Music"@, NodeType::Album, "Takashi Kokubo"@)
    } else if t == 56 {
        ("Ibiza"@, NodeType::Song, "Island of Music"@)
    } else if t == 57 {
        ("Nitsua"@, NodeType::Artist, "Music"@)
    } else if t == 58 {
        ("Home"@, NodeType::Album, "Nitsua"@)
    } else if t == 59 {
        ("Sunset"@, NodeType::Song, "Home"@)
    } else if t == 60 {
        ("People"@, NodeType::Cluster, "VOID"@)
    } else if t == 61 {
        ("Emre"@, NodeType::Person, "People"@)
    } else if t == 62 {
        ("Zeynep"@, NodeType::Person, "People"@)
    } else if t == 63 {
        ("Arda"@, NodeType::Person, "People"@)
    } else if t == 64 {
        ("Hocalarimdan biri"@, NodeType::Person, "People"@)
    } else if t == 65 {
        ("Tasks"@, NodeType::Cluster, "VOID"@)
    } else if t == 66 {
        ("void: add wasmtime plugin loader"@, NodeType::Task, "Tasks"@)
    } else if t == 67 {
        ("void: implement node search"@, NodeType::Task, "Tasks"@)
    } else if t == 68 {
        ("void: write integration tests"@, NodeType::Task, "Tasks"@)
    } else if t == 69 {
        ("read 'Programming Rust' ch.12-15"@, NodeType::Task, "Tasks"@)
    } else if t == 70 {
        ("set up homelab backup cron"@, NodeType::Task, "Tasks"@)
    } else if t == 71 {
        ("fix tmux status bar colors"@, NodeType::Task, "Tasks"@)
    } else if t == 72 {
        ("Bookmarks"@, NodeType::Cluster, "VOID"@)
    } else if t == 73 {
        ("ratatui docs"@, NodeType::Bookmark, "Bookmarks"@)
    } else if t == 74 {
        ("petgraph crate"@, NodeType::Bookmark, "Bookmarks"@)
    } else if t == 75 {
        ("wasmtime component model"@, NodeType::Bookmark, "Bookmarks"@)
    } else if t == 76 {
        ("Bevy ECS patterns"@, NodeType::Bookmark, "Bookmarks"@)
    } else if t == 77 {
        ("Amit Patel - game programming patterns"@, NodeType::Bookmark, "Bookmarks"@)
    } else if t == 78 {
        ("Chandler Carruth - back to basics (cppcon)"@, NodeType::Bookmark, "Bookmarks"@)
    } else {
        (Seq::empty(), NodeType::Root, Seq::empty())
    }
}

/// Cross-reference `t` of the demo map as the map lists it, by labels: the
/// node it leads from and the node it leads to.
pub open spec fn demo_cross_labels(t: int) -> (Seq<char>, Seq<char>) {
    if t == 0 {
        ("graph renderer"@, "ecs architecture"@)
    } else if t == 1 {
        ("camera system"@, "event-driven design"@)
    } else if t == 2 {
        ("plugin api"@, "unsafe & FFI"@)
    } else if t == 3 {
        ("core engine"@, "async / Pin / Future"@)
    } else if t == 4 {
        ("deferred rendering"@, "vulkan pipeline"@)
    } else if t == 5 {
        ("spatial computing"@, "camera system"@)
    } else if t == 6 {
        ("terminal as world"@, "graph renderer"@)
    } else if t == 7 {
        ("ai as navigator"@, "plugin api"@)
    } else if t == 8 {
        ("Feather (feat. Cise Starr & Akin)"@, "Flower Dance"@)
    } else if t == 9 {
        ("Nujabes"@, "DJ Okawari"@)
    } else if t == 10 {
        ("Emre"@, "void: add wasmtime plugin loader"@)
    } else if t == 11 {
        ("Zeynep"@, "read 'Programming Rust' ch.12-15"@)
    } else {
        (Seq::empty(), Seq::empty())
    }
}

/// The label of the node at position `k` of the demo map, the root being
/// labelled "VOID".
spec fn label_at(k: int) -> Seq<char> {
    if k == 0 {
        "VOID"@
    } else {
        demo_entry(k - 1).0
    }
}

/// The positional table agrees with the map as listed by labels.
#[verifier::rlimit(50)]
proof fn lemma_filing_agrees(t: int)
    requires
        0 <= t < 79,
    ensures
        demo_entry(t).0 == demo_filing(t).0,
        demo_entry(t).1 == demo_filing(t).1,
        label_at(demo_entry(t).2) == demo_filing(t).2,
{
    if t == 0 {
    } else if t == 1 {
    } else if t == 2 {
    } else if t == 3 {
    } else if t == 4 {
    } else if t == 5 {
    } else if t == 6 {
    } else if t == 7 {
    } else if t == 8 {
    } else if t == 9 {
    } else if t == 10 {
    } else if t == 11 {
    } else if t == 12 {
    } else if t == 13 {
    } else if t == 14 {
    } else if t == 15 {
    } else if t == 16 {
    } else if t == 17 {
    } else if t == 18 {
    } else if t == 19 {
    } else if t == 20 {
    } else if t == 21 {
    } else if t == 22 {
    } else if t == 23 {
    } else if t == 24 {
    } else if t == 25 {
    } else if t == 26 {
    } else if t == 27 {
    } else if t == 28 {
    } else if t == 29 {
    } else if t == 30 {
    } else if t == 31 {
    } else if t == 32 {
    } else if t == 33 {
    } else if t == 34 {
    } else if t == 35 {
    } else if t == 36 {
    } else if t == 37 {
    } else if t == 38 {
    } else if t == 39 {
    } else if t == 40 {
    } else if t == 41 {
    } else if t == 42 {
    } else if t == 43 {
    } else if t == 44 {
    } else if t == 45 {
    } else if t == 46 {
    } else if t == 47 {
    } else if t == 48 {
    } else if t == 49 {
    } else if t == 50 {
    } else if t == 51 {
    } else if t == 52 {
    } else if t == 53 {
    } else if t == 54 {
    } else if t == 55 {
    } else if t == 56 {
    } else if t == 57 {
    } else if t == 58 {
    } else if t == 59 {
    } else if t == 60 {
    } else if t == 61 {
    } else if t == 62 {
    } else if t == 63 {
    } else if t == 64 {
    } else if t == 65 {
    } else if t == 66 {
    } else if t == 67 {
    } else if t == 68 {
    } else if t == 69 {
    } else if t == 70 {
    } else if t == 71 {
    } else if t == 72 {
    } else if t == 73 {
    } else if t == 74 {
    } else if t == 75 {
    } else if t == 76 {
    } else if t == 77 {
    } else if t == 78 {
    }
}

/// The cross-references by position agree with the map as listed by labels.
proof fn lemma_links_agree(t: int)
    requires
        0 <= t < 12,
    ensures
        label_at(demo_link(t).0) == demo_cross_labels(t).0,
        label_at(demo_link(t).1) == demo_cross_labels(t).1,
{
    if t == 0 {
    } else if t == 1 {
    } else if t == 2 {
    } else if t == 3 {
    } else if t == 4 {
    } else if t == 5 {
    } else if t == 6 {
    } else if t == 7 {
    } else if t == 8 {
    } else if t == 9 {
    } else if t == 10 {
    } else if t == 11 {
    }
}

/// The node at position `k` carries the label `label_at(k)`.
proof fn lemma_label_at(g: WorldGraph, root: nat, ids: Seq<usize>, k: int)
    requires
        demo_layout(g, root, ids),
        g.node_at(root).label@ == "VOID"@,
        0 <= k < 80,
    ensures
        g.node_at(ids[k] as nat).label@ == label_at(k),
{
}

/// Each node of the demo map is where the map puts it: the node created
/// `t`-th after the root has the label and kind that the map lists, and every
/// node with a containment edge to it (there is one) carries the label of the
/// node the map files it under.
pub proof fn law_demo_filed_as_listed(g: WorldGraph, root: nat, ids: Seq<usize>, t: int)
    requires
        demo_layout(g, root, ids),
        g.node_at(root).label@ == "VOID"@,
        0 <= t < 79,
    ensures
        g.node_at(ids[t + 1] as nat).label@ == demo_filing(t).0,
        g.node_at(ids[t + 1] as nat).node_type == demo_filing(t).1,
        forall|q: int|
            0 <= q < 80 && out_view(g.slots()[#[trigger] ids[q] as nat].1).contains(
                (ids[t + 1] as nat, Relation::Contains),
            ) ==> g.node_at(ids[q] as nat).label@ == demo_filing(t).2,
        exists|q: int|
            0 <= q < 80 && out_view(g.slots()[#[trigger] ids[q] as nat].1).contains(
                (ids[t + 1] as nat, Relation::Contains),
            ),
{
    lemma_filing_agrees(t);
    let p = demo_entry(t).2;
    law_demo_contains_parent(g, root, ids, p, t + 1);
    lemma_label_at(g, root, ids, p);
    assert forall|q: int|
        0 <= q < 80 && out_view(g.slots()[#[trigger] ids[q] as nat].1).contains(
            (ids[t + 1] as nat, Relation::Contains),
        ) implies g.node_at(ids[q] as nat).label@ == demo_filing(t).2 by {
        law_demo_contains_parent(g, root, ids, q, t + 1);
    }
}

/// Each cross-reference of the demo map joins the nodes that the map lists
/// for it, by their labels.
pub proof fn law_demo_cross_links_as_listed(g: WorldGraph, root: nat, ids: Seq<usize>, t: int)
    requires
        demo_layout(g, root, ids),
        g.node_at(root).label@ == "VOID"@,
        0 <= t < 12,
    ensures
        exists|a: int, b: int|
            0 <= a < 80 && 0 <= b < 80 && #[trigger] g.node_at(ids[a] as nat).label@
                == demo_cross_labels(t).0 && #[trigger] g.node_at(ids[b] as nat).label@
                == demo_cross_labels(t).1 && out_view(g.slots()[ids[a] as nat].1).contains(
                (ids[b] as nat, Relation::References),
            ),
{
    lemma_links_agree(t);
    let h = demo_history();
    law_demo_edges();
    let (a, b) = demo_link(t);
    assert(h[79 + t] == demo_refs()[t]);
    assert(h[79 + t] == (a, b, Relation::References));
    lemma_hist_out_has(h, 79 + t);
    let o = hist_out(h, a);
    let i = choose|i: int| 0 <= i < o.len() && o[i] == (b, Relation::References);
    assert(out_view(g.slots()[ids[a] as nat].1) == placed_out(ids, o));
    assert(placed_out(ids, o)[i] == (ids[b] as nat, Relation::References));
    lemma_label_at(g, root, ids, a);
    lemma_label_at(g, root, ids, b);
}

/// The rank of a node of the demo map: the rank of its position.
spec fn node_rank(ids: Seq<usize>, i: nat) -> int {
    demo_rank(choose|q: int| 0 <= q < ids.len() && ids[q] as nat == i)
}

/// Following a path never lowers the rank.
proof fn lemma_reach_climbs(g: WorldGraph, root: nat, ids: Seq<usize>, u: nat, v: nat, d: nat)
    requires
        demo_layout(g, root, ids),
        g.has_node(u),
        reach_within(g.slots(), u, v, d),
    ensures
        g.has_node(v),
        node_rank(ids, u) <= node_rank(ids, v),
    decreases d,
{
    let m = g.slots();
    if d > 0 {
        if reach_within(m, u, v, (d - 1) as nat) {
            lemma_reach_climbs(g, root, ids, u, v, (d - 1) as nat);
        } else {
            let w = choose|w: nat| #[trigger] step(m, w, v) && reach_within(m, u, w, (d - 1) as nat);
            lemma_reach_climbs(g, root, ids, u, w, (d - 1) as nat);
            lemma_edge_climbs(g, root, ids, w, v);
        }
    }
}

/// Every edge of the demo map climbs in rank.
proof fn lemma_edge_climbs(g: WorldGraph, root: nat, ids: Seq<usize>, a: nat, b: nat)
    requires
        demo_layout(g, root, ids),
        step(g.slots(), a, b),
    ensures
        g.has_node(a),
        g.has_node(b),
        node_rank(ids, a) < node_rank(ids, b),
{
    let h = demo_history();
    lemma_built_step(g, ids, h, a, b);
    let t = choose|t: int| 0 <= t < h.len() && ids[(#[trigger] h[t]).0] as nat == a && ids[h[t].1] as nat == b;
    law_demo_acyclic();
    let qa = choose|q: int| 0 <= q < ids.len() && ids[q] as nat == a;
    let qb = choose|q: int| 0 <= q < ids.len() && ids[q] as nat == b;
    assert(0 <= h[t].0 < 80 && 0 <= h[t].1 < 80);
    assert(qa == h[t].0) by {
        if qa != h[t].0 {
            assert(ids[qa] != ids[h[t].0]);
        }
    }
    assert(qb == h[t].1) by {
        if qb != h[t].1 {
            assert(ids[qb] != ids[h[t].1]);
        }
    }
    assert(g.has_node(ids[h[t].0] as nat));
    assert(g.has_node(ids[h[t].1] as nat));
}

/// The demo map has no cycle: no node can be reached again from a node it
/// has an edge to.
pub proof fn law_demo_no_cycle(g: WorldGraph, root: nat, ids: Seq<usize>, v: nat, u: nat, d: nat)
    requires
        demo_layout(g, root, ids),
        step(g.slots(), v, u),
    ensures
        !reach_within(g.slots(), u, v, d),
{
    lemma_edge_climbs(g, root, ids, v, u);
    if reach_within(g.slots(), u, v, d) {
        lemma_reach_climbs(g, root, ids, u, v, d);
    }
}

/// Entry `k` of the demo map.
pub fn demo_entry_at(k: usize) -> (r: (&'static str, NodeType, usize))
    requires
        k < 79,
    ensures
        r.0@ == demo_entry(k as int).0,
        r.1 == demo_entry(k as int).1,
        r.2 as int == demo_entry(k as int).2,
        r.2 <= k,
{
    match k {
        0 => ("Code", NodeType::Cluster, 0),
        1 => ("void", NodeType::Project, 1),
        2 => ("core engine", NodeType::Note, 2),
        3 => ("graph renderer", NodeType::Note, 2),
        4 => ("camera system", NodeType::Note, 2),
        5 => ("plugin api", NodeType::Note, 2),
        6 => ("animation engine", NodeType::Note, 2),
        7 => ("kanri", NodeType::Project, 1),
        8 => ("tui dashboard", NodeType::Note, 8),
        9 => ("rest client", NodeType::Note, 8),
        10 => ("dotfiles", NodeType::Project, 1),
        11 => ("neovim config", NodeType::File, 11),
        12 => ("tmux config", NodeType::File, 11),
        13 => ("zsh / starship", NodeType::File, 11),
        14 => ("wezterm config", NodeType::File, 1),
        15 => ("Notes", NodeType::Cluster, 0),
        16 => ("Rust", NodeType::Knowledge, 16),
        17 => ("ownership & borrowing", NodeType::Note, 17),
        18 => ("lifetime elision", NodeType::Note, 17),
        19 => ("trait objects vs generics", NodeType::Note, 17),
        20 => ("async / Pin / Future", NodeType::Note, 17),
        21 => ("unsafe & FFI", NodeType::Note, 17),
        22 => ("Graphics", NodeType::Knowledge, 16),
        23 => ("vulkan pipeline", NodeType::Note, 23),
        24 => ("wgsl / glsl", NodeType::Note, 23),
        25 => ("deferred rendering", NodeType::Note, 23),
        26 => ("ray tracing basics", NodeType::Note, 23),
        27 => ("Systems Design", NodeType::Knowledge, 16),
        28 => ("ecs architecture", NodeType::Note, 28),
        29 => ("event-driven design", NodeType::Note, 28),
        30 => ("cache-friendly data layouts", NodeType::Note, 28),
        31 => ("Ideas", NodeType::Knowledge, 16),
        32 => ("spatial computing", NodeType::Note, 32),
        33 => ("ai as navigator", NodeType::Note, 32),
        34 => ("terminal as world", NodeType::Note, 32),
        35 => ("Music", NodeType::Cluster, 0),
        36 => ("Nujabes", NodeType::Artist, 36),
        37 => ("Modal Soul", NodeType::Album, 37),
        38 => ("Aruarian Dance", NodeType::Song, 38),
        39 => ("Reflection Eternal", NodeType::Song, 38),
        40 => ("Feather (feat. Cise Starr & Akin)", NodeType::Song, 38),
        41 => ("Luv(sic) Part 3 (feat. Shing02)", NodeType::Song, 38),
        42 => ("Hydeout Productions 1st Collection", NodeType::Album, 37),
        43 => ("Counting Stars", NodeType::Song, 43),
        44 => ("Lady Brown (feat. Cise Starr)", NodeType::Song, 43),
        45 => ("DJ Okawari", NodeType::Artist, 36),
        46 => ("Mirror", NodeType::Album, 46),
        47 => ("Flower Dance", NodeType::Song, 47),
        48 => ("Luv Letter", NodeType::Song, 47),
        49 => ("Moonlight", NodeType::Song, 47),
        50 => ("Lopazz", NodeType::Artist, 36),
        51 => ("Casiopea", NodeType::Album, 51),
        52 => ("Asayake", NodeType::Song, 52),
        53 => ("Galactic Funk", NodeType::Song, 52),
        54 => ("Takashi Kokubo", NodeType::Artist, 36),
        55 => ("Island of Music", NodeType::Album, 55),
        56 => ("Ibiza", NodeType::Song, 56),
        57 => ("Nitsua", NodeType::Artist, 36),
        58 => ("Home", NodeType::Album, 58),
        59 => ("Sunset", NodeType::Song, 59),
        60 => ("People", NodeType::Cluster, 0),
        61 => ("Emre", NodeType::Person, 61),
        62 => ("Zeynep", NodeType::Person, 61),
        63 => ("Arda", NodeType::Person, 61),
        64 => ("Hocalarimdan biri", NodeType::Person, 61),
        65 => ("Tasks", NodeType::Cluster, 0),
        66 => ("void: add wasmtime plugin loader", NodeType::Task, 66),
        67 => ("void: implement node search", NodeType::Task, 66),
        68 => ("void: write integration tests", NodeType::Task, 66),
        69 => ("read 'Programming Rust' ch.12-15", NodeType::Task, 66),
        70 => ("set up homelab backup cron", NodeType::Task, 66),
        71 => ("fix tmux status bar colors", NodeType::Task, 66),
        72 => ("Bookmarks", NodeType::Cluster, 0),
        73 => ("ratatui docs", NodeType::Bookmark, 73),
        74 => ("petgraph crate", NodeType::Bookmark, 73),
        75 => ("wasmtime component model", NodeType::Bookmark, 73),
        76 => ("Bevy ECS patterns", NodeType::Bookmark, 73),
        77 => ("Amit Patel - game programming patterns", NodeType::Bookmark, 73),
        78 => ("Chandler Carruth - back to basics (cppcon)", NodeType::Bookmark, 73),
        _ => ("", NodeType::Root, 0),
    }
}

/// Cross-reference `k` of the demo map.
pub fn demo_link_at(k: usize) -> (r: (usize, usize))
    requires
        k < 12,
    ensures
        r.0 as int == demo_link(k as int).0,
        r.1 as int == demo_link(k as int).1,
        r.0 < 80,
        r.1 < 80,
{
    match k {
        0 => (4, 29),
        1 => (5, 30),
        2 => (6, 22),
        3 => (3, 21),
        4 => (26, 24),
        5 => (33, 5),
        6 => (35, 4),
        7 => (34, 6),
        8 => (41, 48),
        9 => (37, 46),
        10 => (62, 67),
        11 => (63, 70),
        _ => (0, 0),
    }
}

} // verus!
