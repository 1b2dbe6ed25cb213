//! Laws of navigation, search and input handling.
use vstd::prelude::*;
use crate::graph::stable::{Slot, index_limit, indices_below, sorted_indices};
use crate::graph::types::{WorldGraph, slot_children, slot_parents, slots_closed};
use vstd::arithmetic::div_mod::{lemma_mod_add_multiples_vanish, lemma_mod_self_0, lemma_small_mod};
use crate::text::{byte_len, lemma_byte_len_at_most_one, lowercase, seq_contains};
use crate::seqs::{
    first_index, lemma_first_index_absent, lemma_first_index_found, lemma_first_index_of_contained,
};
use crate::state::input::{
    KeyCode, KeyEvent, MouseEvent, browse_key_outcome, mouse_outcome, search_key_outcome,
};
use crate::state::world::{
    ViewCommand, WorldState, cycle_outcome, hits_among, label_matches, search_hits,
    select_commands, zoom_into_outcome, zoom_to_parent_outcome,
};

verus! {

proof fn lemma_indices_below_contains(m: Map<nat, Slot>, bound: nat, i: nat)
    ensures
        indices_below(m, bound).contains(i) <==> (i < bound && m.dom().contains(i)),
    decreases bound,
{
    if bound > 0 {
        lemma_indices_below_contains(m, (bound - 1) as nat, i);
        let rest = indices_below(m, (bound - 1) as nat);
        let last = (bound - 1) as nat;
        if m.dom().contains(last) {
            let full = rest.push(last);
            if full.contains(i) {
                let k = choose|k: int| 0 <= k < full.len() && #[trigger] full[k] == i;
                if k < rest.len() {
                    assert(rest[k] == i);
                }
            }
            if rest.contains(i) {
                let k = choose|k: int| 0 <= k < rest.len() && #[trigger] rest[k] == i;
                assert(full[k] == i);
            }
            if i == last {
                assert(full[rest.len() as int] == i);
            }
        }
    }
}

proof fn lemma_hits_among_contains(g: WorldGraph, idxs: Seq<nat>, q: Seq<char>, id: u128)
    ensures
        hits_among(g, idxs, q).contains(id) <==> exists|k: int|
            0 <= k < idxs.len() && label_matches(g, #[trigger] idxs[k], q) && g.node_at(idxs[k]).id
                == id,
    decreases idxs.len(),
{
    if idxs.len() > 0 {
        let pre = idxs.drop_last();
        lemma_hits_among_contains(g, pre, q, id);
        let rest = hits_among(g, pre, q);
        let last = idxs.last();
        if hits_among(g, idxs, q).contains(id) {
            if label_matches(g, last, q) {
                let k = choose|k: int| 0 <= k < rest.push(g.node_at(last).id).len() && rest.push(
                    g.node_at(last).id,
                )[k] == id;
                if k < rest.len() {
                    assert(rest[k] == id);
                    let j = choose|j: int|
                        0 <= j < pre.len() && label_matches(g, #[trigger] pre[j], q) && g.node_at(
                            pre[j],
                        ).id == id;
                    assert(idxs[j] == pre[j]);
                } else {
                    assert(idxs[idxs.len() - 1] == last);
                }
            } else {
                let j = choose|j: int|
                    0 <= j < pre.len() && label_matches(g, #[trigger] pre[j], q) && g.node_at(
                        pre[j],
                    ).id == id;
                assert(idxs[j] == pre[j]);
            }
        }
        if exists|k: int|
            0 <= k < idxs.len() && label_matches(g, #[trigger] idxs[k], q) && g.node_at(idxs[k]).id
                == id {
            let k = choose|k: int|
                0 <= k < idxs.len() && label_matches(g, #[trigger] idxs[k], q) && g.node_at(
                    idxs[k],
                ).id == id;
            if k < pre.len() {
                assert(pre[k] == idxs[k]);
                assert(rest.contains(id));
                if label_matches(g, last, q) {
                    let j = choose|j: int| 0 <= j < rest.len() && rest[j] == id;
                    assert(rest.push(g.node_at(last).id)[j] == id);
                }
            } else {
                assert(rest.push(g.node_at(last).id)[rest.len() as int] == id);
            }
        }
    }
}

/// Search finds exactly the nodes it should: for a non-empty query, an id is
/// among the hits just when some live node with that id, of whatever type,
/// has a label that contains the query (both lowercased).
pub proof fn law_search_finds_exactly_the_matches(g: WorldGraph, q: Seq<char>, id: u128)
    requires
        g.wf(),
        q.len() > 0,
    ensures
        search_hits(g, q).contains(id) <==> exists|i: nat|
            g.has_node(i) && seq_contains(lowercase(#[trigger] g.node_at(i).label@), lowercase(q))
                && g.node_at(i).id == id,
{
    g.lemma_wf();
    let m = g.slots();
    let idxs = sorted_indices(m);
    lemma_hits_among_contains(g, idxs, q, id);
    if search_hits(g, q).contains(id) {
        let k = choose|k: int|
            0 <= k < idxs.len() && label_matches(g, #[trigger] idxs[k], q) && g.node_at(idxs[k]).id
                == id;
        lemma_indices_below_contains(m, index_limit(), idxs[k]);
        assert(idxs.contains(idxs[k]));
    }
    if exists|i: nat|
        g.has_node(i) && seq_contains(lowercase(#[trigger] g.node_at(i).label@), lowercase(q))
            && g.node_at(i).id == id {
        let i = choose|i: nat|
            g.has_node(i) && seq_contains(lowercase(#[trigger] g.node_at(i).label@), lowercase(q))
                && g.node_at(i).id == id;
        assert(label_matches(g, i, q));
        lemma_indices_below_contains(m, index_limit(), i);
        let k = choose|k: int| 0 <= k < idxs.len() && idxs[k] == i;
        assert(label_matches(g, idxs[k], q));
    }
}

/// The ids of the nodes among `idxs` whose lowercased label contains the
/// lowercased query, in the order of `idxs`.
proof fn lemma_hits_among_filter(g: WorldGraph, idxs: Seq<nat>, q: Seq<char>)
    ensures
        hits_among(g, idxs, q) == idxs.filter(
            |i: nat| seq_contains(lowercase(g.node_at(i).label@), lowercase(q)),
        ).map_values(|i: nat| g.node_at(i).id),
    decreases idxs.len(),
{
    let pred = |i: nat| seq_contains(lowercase(g.node_at(i).label@), lowercase(q));
    let idf = |i: nat| g.node_at(i).id;
    reveal(Seq::filter);
    if idxs.len() == 0 {
        assert(idxs.filter(pred) =~= Seq::<nat>::empty());
        assert(idxs.filter(pred).map_values(idf) =~= Seq::<u128>::empty());
    } else {
        let pre = idxs.drop_last();
        lemma_hits_among_filter(g, pre, q);
        assert(idxs.filter(pred) == if pred(idxs.last()) {
            pre.filter(pred).push(idxs.last())
        } else {
            pre.filter(pred)
        });
        if pred(idxs.last()) {
            assert(pre.filter(pred).push(idxs.last()).map_values(idf) =~= pre.filter(pred).map_values(
                idf,
            ).push(g.node_at(idxs.last()).id));
        }
    }
}

/// Search lists its hits in node index order: for a non-empty query, the
/// results are the ids of the live nodes, taken in increasing index order,
/// whose lowercased label contains the lowercased query, whatever their type.
pub proof fn law_search_in_node_order(g: WorldGraph, q: Seq<char>)
    requires
        q.len() > 0,
    ensures
        search_hits(g, q) == sorted_indices(g.slots()).filter(
            |i: nat| seq_contains(lowercase(g.node_at(i).label@), lowercase(q)),
        ).map_values(|i: nat| g.node_at(i).id),
{
    lemma_hits_among_filter(g, sorted_indices(g.slots()), q);
}

/// The empty query finds nothing.
pub proof fn law_empty_search_finds_nothing(g: WorldGraph)
    ensures
        search_hits(g, Seq::<char>::empty()).len() == 0,
{
}

/// Handling keys and mouse events navigates and never edits the graph, and no
/// node is ever un-expanded.
pub proof fn law_input_keeps_graph(
    a: WorldState,
    b: WorldState,
    key: KeyEvent,
    mouse: MouseEvent,
    hit: Option<u128>,
    quit: bool,
    cmds: Seq<ViewCommand>,
)
    requires
        browse_key_outcome(a, b, key, quit, cmds) || search_key_outcome(a, b, key, cmds)
            || mouse_outcome(a, b, mouse, hit, cmds),
    ensures
        b.graph == a.graph,
        a.expanded_nodes@.subset_of(b.expanded_nodes@),
        b.root_node == a.root_node,
{
}

/// Entering search mode with `/` and leaving it with `Esc` ends back out of
/// search mode with no results, the selection and the trail as they were.
pub proof fn law_search_mode_round_trip(
    a: WorldState,
    b: WorldState,
    c: WorldState,
    quit: bool,
    cmds1: Seq<ViewCommand>,
    cmds2: Seq<ViewCommand>,
    ctrl1: bool,
    ctrl2: bool,
)
    requires
        a.search_query@.len() == 0,
        browse_key_outcome(a, b, KeyEvent { code: KeyCode::Char('/'), ctrl: ctrl1 }, quit, cmds1),
        search_key_outcome(b, c, KeyEvent { code: KeyCode::Esc, ctrl: ctrl2 }, cmds2),
    ensures
        !quit,
        c.search_query@.len() == 0,
        c.search_results@.len() == 0,
        c.selected_node == a.selected_node,
        c.focus_stack@ == a.focus_stack@,
        c.graph == a.graph,
        cmds1.len() == 0 && cmds2.len() == 0,
{
}

/// Quitting happens only on `q` or `Esc` with nothing selected; keys never
/// quit in search mode.
pub proof fn law_quit_only_when_nothing_selected(
    a: WorldState,
    b: WorldState,
    key: KeyEvent,
    quit: bool,
    cmds: Seq<ViewCommand>,
)
    requires
        browse_key_outcome(a, b, key, quit, cmds),
        quit,
    ensures
        a.selected_node is None,
        key.code == KeyCode::Char('q') || key.code == KeyCode::Esc,
        b.unchanged(&a),
{
}

/// `Tab` in search mode selects one of the results: the one after the
/// selection's first place among them, wrapping from the last to the first,
/// or the first result when the selection is not among them.
pub proof fn law_tab_selects_a_result(a: WorldState, b: WorldState, key: KeyEvent, cmds: Seq<ViewCommand>)
    requires
        search_key_outcome(a, b, key, cmds),
        key.code == KeyCode::Tab,
        a.search_results@.len() > 0,
    ensures
        b.selected_node is Some,
        a.search_results@.contains(b.selected_node->0),
        forall|i: int|
            0 <= i < a.search_results@.len() && a.selected_node == Some(#[trigger] a.search_results@[i])
                && (forall|j: int| 0 <= j < i ==> a.search_results@[j] != a.search_results@[i]) ==> {
                let next = if i + 1 == a.search_results@.len() { 0 } else { i + 1 };
                b.selected_node == Some(a.search_results@[next])
            },
        (a.selected_node is None || !a.search_results@.contains(a.selected_node->0))
            ==> b.selected_node == Some(a.search_results@[0]),
        b.search_results@ == a.search_results@,
        b.search_query@ == a.search_query@,
{
    let r = a.search_results@;
    let n = r.len() as int;
    let next = match a.selected_node {
        Some(sel) => match first_index(r, sel) {
            Some(i) => (i + 1) % n,
            None => 0,
        },
        None => 0,
    };
    match a.selected_node {
        Some(sel) => {
            if r.contains(sel) {
                lemma_first_index_of_contained(r, sel);
            } else {
                lemma_first_index_absent(r, sel);
            }
        },
        None => {},
    }
    assert(0 <= next < n);
    assert(r[next] == b.selected_node->0);
    assert forall|i: int|
        0 <= i < n && a.selected_node == Some(#[trigger] r[i]) && (forall|j: int| 0 <= j < i ==> r[j] != r[i])
            implies b.selected_node == Some(r[if i + 1 == n { 0 } else { i + 1 }]) by {
        lemma_first_index_found(r, r[i], i);
        if i + 1 == n {
            lemma_mod_self_0(n);
        } else {
            lemma_small_mod((i + 1) as nat, n as nat);
        }
    }
    if a.selected_node is Some && !r.contains(a.selected_node->0) {
        lemma_first_index_absent(r, a.selected_node->0);
    }
}

/// The other keys of search mode: `Esc` drops the query and the results and
/// keeps the selection; `Enter` drops the query, keeps the results and selects
/// the first of them (the selection stays when there is none); a typed
/// character extends the query, and `Backspace` shortens it, which either way
/// loses its leading character (the `/`), and the results become what a
/// search for it finds; `Backspace` down to at most one byte drops the query
/// and the results. The graph never changes.
pub proof fn law_search_mode_keys(a: WorldState, b: WorldState, key: KeyEvent, cmds: Seq<ViewCommand>)
    requires
        search_key_outcome(a, b, key, cmds),
    ensures
        b.graph == a.graph,
        key.code == KeyCode::Esc ==> b.search_query@.len() == 0 && b.search_results@.len() == 0
            && b.selected_node == a.selected_node && cmds.len() == 0,
        key.code == KeyCode::Enter ==> b.search_query@.len() == 0 && b.search_results@
            == a.search_results@,
        key.code == KeyCode::Enter && a.search_results@.len() > 0 ==> b.selected_node == Some(
            a.search_results@[0],
        ),
        key.code == KeyCode::Enter && a.search_results@.len() == 0 ==> b.selected_node
            == a.selected_node && cmds.len() == 0,
        key.code == KeyCode::Backspace && a.search_query@.len() > 0 && byte_len(a.search_query@.drop_last())
            <= 1 ==> b.search_query@.len()
            == 0 && b.search_results@.len() == 0 && b.selected_node == a.selected_node,
        key.code == KeyCode::Backspace && a.search_query@.len() > 0 && byte_len(a.search_query@.drop_last())
            > 1 ==> {
            &&& b.search_query@ == a.search_query@.subrange(1, a.search_query@.len() - 1)
            &&& b.search_results@ == search_hits(a.graph, b.search_query@)
            &&& b.selected_node == a.selected_node
            &&& cmds.len() == 0
        },
        key.code is Char ==> {
                let c = key.code->0;
                &&& b.search_query@ == a.search_query@.push(c).subrange(1, a.search_query@.len() + 1 as int)
                &&& b.search_results@ == search_hits(a.graph, b.search_query@)
                &&& b.selected_node == a.selected_node
                &&& cmds.len() == 0
            },
{
    match key.code {
        KeyCode::Backspace => {
            let rest = a.search_query@.drop_last();
            lemma_byte_len_at_most_one(rest);
            if a.search_query@.len() > 0 && byte_len(rest) > 1 {
                assert(rest.drop_first() =~= a.search_query@.subrange(1, a.search_query@.len() - 1));
            }
        },
        KeyCode::Char(c) => {
            assert(a.search_query@.push(c).drop_first() =~= a.search_query@.push(c).subrange(
                1,
                a.search_query@.len() + 1 as int,
            ));
        },
        _ => {},
    }
}

/// With nothing selected, cycling in either direction selects the root's
/// first child; with a selected node that has no parent, its own first child.
pub proof fn law_cycle_starts_at_first_child(
    a: WorldState,
    forward: bool,
    after: Option<u128>,
    cmds: Seq<ViewCommand>,
    start: usize,
)
    requires
        cycle_outcome(a, forward, after, cmds),
        slot_children(a.graph.slots(), start as nat).len() > 0,
        (a.selected_node is None && a.root_node == Some(start)) || (a.selected_node is Some
            && a.graph.index_of(a.selected_node->0) == Some(start) && slot_parents(
            a.graph.slots(),
            start as nat,
        ).len() == 0),
    ensures
        after == Some(a.graph.node_at(slot_children(a.graph.slots(), start as nat)[0]).id),
        cmds == seq![ViewCommand::FocusOn(slot_children(a.graph.slots(), start as nat)[0] as usize)],
{
}

/// Cycling steps from a selected node to its neighbour among the children of
/// its newest parent: forward to the next one, backward to the previous one,
/// wrapping around at either end. The selected node's place is its first
/// place in that list.
pub proof fn law_cycle_steps_through_siblings(
    a: WorldState,
    forward: bool,
    after: Option<u128>,
    cmds: Seq<ViewCommand>,
    k: int,
)
    requires
        cycle_outcome(a, forward, after, cmds),
        a.selected_node is Some,
        a.graph.index_of(a.selected_node->0) is Some,
        slot_parents(a.graph.slots(), a.graph.index_of(a.selected_node->0)->0 as nat).len() > 0,
        ({
            let i = a.graph.index_of(a.selected_node->0)->0 as nat;
            let sib = slot_children(a.graph.slots(), slot_parents(a.graph.slots(), i)[0]);
            &&& 0 <= k < sib.len()
            &&& sib[k] == i
            &&& forall|j: int| 0 <= j < k ==> sib[j] != i
        }),
    ensures
        ({
            let i = a.graph.index_of(a.selected_node->0)->0 as nat;
            let sib = slot_children(a.graph.slots(), slot_parents(a.graph.slots(), i)[0]);
            let n = sib.len() as int;
            let next = if forward {
                if k + 1 == n { 0 } else { k + 1 }
            } else {
                if k == 0 { n - 1 } else { k - 1 }
            };
            &&& after == Some(a.graph.node_at(sib[next]).id)
            &&& cmds == seq![ViewCommand::FocusOn(sib[next] as usize)]
        }),
{
    let i = a.graph.index_of(a.selected_node->0)->0 as nat;
    let sib = slot_children(a.graph.slots(), slot_parents(a.graph.slots(), i)[0]);
    let n = sib.len() as int;
    lemma_first_index_found(sib, i, k);
    if forward {
        if k + 1 == n {
            lemma_mod_self_0(n);
        } else {
            lemma_small_mod((k + 1) as nat, n as nat);
        }
    } else {
        if k == 0 {
            lemma_small_mod((n - 1) as nat, n as nat);
        } else {
            lemma_mod_add_multiples_vanish(k - 1, n);
            lemma_small_mod((k - 1) as nat, n as nat);
            assert(k + n - 1 == n + (k - 1));
        }
    }
}

/// Zooming into a node and going back up lands on the node's parent when it
/// has one; for a node without parent it restores the selection from before
/// the zoom, and the trail with it (with nothing selected before, it goes
/// back along the trail, or to the root).
pub proof fn law_back_after_zoom_in(
    a: WorldState,
    b: WorldState,
    c: WorldState,
    id: u128,
    cmds1: Seq<ViewCommand>,
    cmds2: Seq<ViewCommand>,
)
    requires
        a.wf(),
        a.graph.index_of(id) is Some,
        slot_children(a.graph.slots(), a.graph.index_of(id)->0 as nat).len() > 0,
        zoom_into_outcome(a, b, id, cmds1),
        zoom_to_parent_outcome(b, c, cmds2),
    ensures
        b.selected_node == Some(id),
        ({
            let i = a.graph.index_of(id)->0 as nat;
            let parents = slot_parents(a.graph.slots(), i);
            if parents.len() > 0 {
                c.selected_node == Some(a.graph.node_at(parents[0]).id)
            } else if a.selected_node is Some {
                &&& c.selected_node == a.selected_node
                &&& c.focus_stack@ == a.focus_stack@
                &&& cmds2 == select_commands(a.graph, a.selected_node->0)
            } else if a.focus_stack@.len() > 0 {
                &&& c.selected_node == Some(a.focus_stack@.last())
                &&& c.focus_stack@ == a.focus_stack@.drop_last()
            } else {
                c.selected_node is None && c.focus_stack@.len() == 0
            }
        }),
{
    if a.selected_node is Some {
        assert(b.focus_stack@.drop_last() =~= a.focus_stack@);
    }
}

/// One step forward or back on a ring of `n` places.
proof fn lemma_step_mod(x: int, n: int)
    requires
        0 <= x < n,
    ensures
        0 <= (x + 1) % n < n,
        0 <= (x + n - 1) % n < n,
        ((x + 1) % n + n - 1) % n == x,
        ((x + n - 1) % n + 1) % n == x,
{
    if x + 1 < n {
        lemma_small_mod((x + 1) as nat, n as nat);
        lemma_mod_add_multiples_vanish(x, n);
        lemma_small_mod(x as nat, n as nat);
    } else {
        lemma_mod_self_0(n);
        lemma_small_mod((n - 1) as nat, n as nat);
    }
    if x > 0 {
        lemma_mod_add_multiples_vanish(x - 1, n);
        lemma_small_mod((x - 1) as nat, n as nat);
        lemma_small_mod(x as nat, n as nat);
    } else {
        lemma_small_mod((n - 1) as nat, n as nat);
        lemma_mod_self_0(n);
    }
}

/// The children of `p` form a tidy family: each is listed once, each has `p`
/// as its newest parent, and each one's id leads back to it.
pub open spec fn tidy_family(g: WorldGraph, p: nat) -> bool {
    let m = g.slots();
    let sib = slot_children(m, p);
    &&& sib.no_duplicates()
    &&& forall|k: int|
        0 <= k < sib.len() ==> slot_parents(m, #[trigger] sib[k]).len() > 0 && slot_parents(
            m,
            sib[k],
        )[0] == p && g.index_of(g.node_at(sib[k]).id) == Some(sib[k] as usize)
}

/// Stepping to the next sibling and then to the previous one (or the other
/// way round) comes back to the node one started from, in a tidy family.
pub proof fn law_cycle_round_trip(
    a: WorldState,
    b: WorldState,
    c: WorldState,
    forward: bool,
    cmds1: Seq<ViewCommand>,
    cmds2: Seq<ViewCommand>,
)
    requires
        a.wf(),
        a.selected_node is Some,
        a.graph.index_of(a.selected_node->0) is Some,
        slot_parents(a.graph.slots(), a.graph.index_of(a.selected_node->0)->0 as nat).len() > 0,
        tidy_family(
            a.graph,
            slot_parents(a.graph.slots(), a.graph.index_of(a.selected_node->0)->0 as nat)[0],
        ),
        cycle_outcome(a, forward, b.selected_node, cmds1),
        b.graph == a.graph,
        cycle_outcome(b, !forward, c.selected_node, cmds2),
    ensures
        c.selected_node == a.selected_node,
{
    let g = a.graph;
    let m = g.slots();
    g.lemma_wf();
    let id = a.selected_node->0;
    let i = g.index_of(id)->0 as nat;
    let p = slot_parents(m, i)[0];
    let sib = slot_children(m, p);
    let n = sib.len() as int;
    assert(m[i].2[0].0 == p);
    assert(sib.contains(i));
    lemma_first_index_of_contained(sib, i);
    let pos = first_index(sib, i)->0;
    let next = if forward {
        (pos + 1) % n
    } else {
        (pos + n - 1) % n
    };
    assert(0 <= next < n);
    let j = sib[next];
    assert(b.selected_node == Some(g.node_at(j).id));
    assert(g.index_of(g.node_at(j).id) == Some(j as usize));
    assert(slot_parents(m, j)[0] == p);
    assert forall|k: int| 0 <= k < next implies sib[k] != j by {
        assert(sib.no_duplicates());
    }
    lemma_first_index_found(sib, j, next);
    let back = if !forward {
        (next + 1) % n
    } else {
        (next + n - 1) % n
    };
    assert(back == pos) by {
        lemma_step_mod(pos, n);
        lemma_step_mod(next, n);
    }
    assert(c.selected_node == Some(g.node_at(sib[back]).id));
}

} // verus!
