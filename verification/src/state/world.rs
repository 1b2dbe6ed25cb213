//! The navigation state of the world: which node is selected, the trail of
//! nodes zoomed through, which nodes are expanded or fading in, and the search.
//! Moving the camera is left to the presentation layer: each operation hands
//! back the camera work it calls for as a list of `ViewCommand`s.
use vstd::prelude::*;
use std::collections::HashSet;
use crate::graph::stable::{Slot, index_limit, sorted_indices};
use crate::graph::types::{
    GraphEdge, GraphNode, NodeType, Relation, WorldGraph, slot_children, slot_parents,
    slots_closed, node_added, edge_added,
};
use crate::render::themes::{Theme, void_dark_theme};
use crate::state::demo::{
    built_from, demo_contains, demo_entry, demo_entry_at, demo_history, demo_layout, demo_link_at,
    demo_world, hist_in, hist_out, in_view, lemma_built_add_edge, lemma_built_add_node, out_view,
    placed, placed_out,
};
use crate::seqs::{first_index, lemma_first_index_absent, lemma_first_index_found};
use crate::text::{lowercase, seq_contains, str_contains, string_clear, to_lowercase};

verus! {

broadcast use vstd::std_specs::hash::group_hash_axioms;

/// The zoom levels that navigation asks for: the overview (1x), a node (2x),
/// and the inside of a node (3x).
#[derive(Debug, Clone, Copy, PartialEq, Eq, Structural)]
pub enum ZoomTarget {
    Overview,
    Node,
    Inside,
}

/// Camera work that a navigation step asks of the presentation layer.
#[derive(Debug, Clone, Copy, PartialEq, Eq, Structural)]
pub enum ViewCommand {
    /// Aim the camera at the node with this index.
    FocusOn(usize),
    /// Set the camera's target zoom.
    ZoomTo(ZoomTarget),
    /// Zoom in one notch (by 1.2).
    ZoomIn,
    /// Zoom out one notch (by 1.2).
    ZoomOut,
    /// Pan one keyboard step up.
    PanUp,
    /// Pan one keyboard step down.
    PanDown,
    /// Pan opposite to a mouse drag of this many columns and rows.
    Drag(i32, i32),
    /// Start the fade-in of the children of the node with this index and lay
    /// them out around it.
    Reveal(usize),
}

pub struct WorldState {
    pub graph: WorldGraph,
    pub theme: Theme,
    pub selected_node: Option<u128>,
    pub hovered_node: Option<u128>,
    pub search_query: String,
    pub search_results: Vec<u128>,
    pub root_node: Option<usize>,
    pub focus_stack: Vec<u128>,
    pub expanded_nodes: HashSet<u128>,
    pub animating_nodes: HashSet<u128>,
    pub last_mouse_pos: Option<(u16, u16)>,
}

/// The ids of the children of node `i`, in the order of its edge list.
pub open spec fn child_ids(g: WorldGraph, i: nat) -> Seq<u128> {
    slot_children(g.slots(), i).map_values(|c: nat| g.node_at(c).id)
}

/// The label of node `i` contains the query, both lowercased.
pub open spec fn label_matches(g: WorldGraph, i: nat, query: Seq<char>) -> bool {
    seq_contains(lowercase(g.node_at(i).label@), lowercase(query))
}

/// The ids of the nodes among `idxs` whose label matches, in order.
pub open spec fn hits_among(g: WorldGraph, idxs: Seq<nat>, query: Seq<char>) -> Seq<u128>
    decreases idxs.len(),
{
    if idxs.len() == 0 {
        Seq::empty()
    } else {
        let rest = hits_among(g, idxs.drop_last(), query);
        if label_matches(g, idxs.last(), query) {
            rest.push(g.node_at(idxs.last()).id)
        } else {
            rest
        }
    }
}

/// What a search for `query` finds: nothing for the empty query, otherwise the
/// ids of the nodes whose lowercased label contains the lowercased query, in
/// increasing node index order.
pub open spec fn search_hits(g: WorldGraph, query: Seq<char>) -> Seq<u128> {
    if query.len() == 0 {
        Seq::empty()
    } else {
        hits_among(g, sorted_indices(g.slots()), query)
    }
}

/// The labels of the ids that the graph knows, in order; unknown ids are
/// skipped.
pub open spec fn known_labels(g: WorldGraph, ids: Seq<u128>) -> Seq<Seq<char>>
    decreases ids.len(),
{
    if ids.len() == 0 {
        Seq::empty()
    } else {
        let rest = known_labels(g, ids.drop_last());
        match g.index_of(ids.last()) {
            Some(i) => rest.push(g.node_at(i as nat).label@),
            None => rest,
        }
    }
}

/// The camera work of selecting `id`: aim at it and zoom to node level, when
/// the graph knows the id.
pub open spec fn select_commands(g: WorldGraph, id: u128) -> Seq<ViewCommand> {
    match g.index_of(id) {
        Some(i) => seq![ViewCommand::FocusOn(i), ViewCommand::ZoomTo(ZoomTarget::Node)],
        None => Seq::empty(),
    }
}

/// The camera work of going back to the root: the overview zoom, then aiming
/// at the root when there is one.
pub open spec fn root_commands(w: WorldState) -> Seq<ViewCommand> {
    match w.root_node {
        Some(r) => if w.graph.has_node(r as nat) {
            seq![ViewCommand::ZoomTo(ZoomTarget::Overview), ViewCommand::FocusOn(r)]
        } else {
            seq![ViewCommand::ZoomTo(ZoomTarget::Overview)]
        },
        None => seq![ViewCommand::ZoomTo(ZoomTarget::Overview)],
    }
}

impl WorldState {
    pub open spec fn wf(&self) -> bool {
        self.graph.wf()
    }

    /// Everything but the navigation fields (selection, trail, expanded and
    /// fading nodes) is the same in `self` and `other`.
    pub open spec fn same_content(&self, other: &WorldState) -> bool {
        &&& self.graph == other.graph
        &&& self.theme == other.theme
        &&& self.hovered_node == other.hovered_node
        &&& self.search_query@ == other.search_query@
        &&& self.search_results@ == other.search_results@
        &&& self.root_node == other.root_node
        &&& self.last_mouse_pos == other.last_mouse_pos
    }

    /// The trail, the expanded nodes and the fading nodes are the same.
    pub open spec fn same_trail(&self, other: &WorldState) -> bool {
        &&& self.focus_stack@ == other.focus_stack@
        &&& self.expanded_nodes@ == other.expanded_nodes@
        &&& self.animating_nodes@ == other.animating_nodes@
    }

    /// Nothing changes.
    pub open spec fn unchanged(&self, other: &WorldState) -> bool {
        &&& self.same_content(other)
        &&& self.same_trail(other)
        &&& self.selected_node == other.selected_node
    }

    /// A world with the root node "VOID" and the demo map under it
    /// (`demo_world`): 80 nodes, 79 containment edges and 12
    /// cross-references. Nothing is selected; only the root is expanded.
    pub fn new() -> (w: Self)
        ensures
            w.wf(),
            w.root_node is Some,
            w.graph.has_node(w.root_node->0 as nat),
            w.graph.node_at(w.root_node->0 as nat).label@ == "VOID"@,
            w.graph.node_at(w.root_node->0 as nat).node_type == NodeType::Root,
            w.graph.slots().dom().len() == 80,
            w.graph.edge_total() == 91,
            demo_world(w.graph, w.root_node->0 as nat),
            w.theme == void_dark_theme(),
            w.selected_node is None,
            w.hovered_node is None,
            w.search_query@.len() == 0,
            w.search_results@.len() == 0,
            w.focus_stack@.len() == 0,
            w.expanded_nodes@ == set![w.graph.node_at(w.root_node->0 as nat).id],
            w.animating_nodes@.len() == 0,
            w.last_mouse_pos is None,
    {
        let mut graph = WorldGraph::new();
        let theme = Theme::void_dark();
        let root = GraphNode::new("VOID".to_string(), NodeType::Root);
        proof {
            vstd::set_lib::lemma_set_empty_equivalency_len(graph.slots().dom());
        }
        let root_idx = graph.add_node(root);
        let mut state = Self {
            graph,
            theme,
            selected_node: None,
            hovered_node: None,
            search_query: String::new(),
            search_results: Vec::new(),
            root_node: Some(root_idx),
            focus_stack: Vec::new(),
            expanded_nodes: HashSet::new(),
            animating_nodes: HashSet::new(),
            last_mouse_pos: None,
        };
        proof {
            assert(state.graph.slots().dom() =~= set![root_idx as nat]);
        }
        state.create_demo_world();
        state
    }

    /// Fills a world that holds only its root with the demo map: each entry of
    /// `demo_entry` is created and filed under its parent, then the
    /// cross-references of `demo_link` are added (`demo_world`).
    fn create_demo_world(&mut self)
        requires
            old(self).wf(),
            old(self).root_node is Some,
            old(self).graph.slots() == Map::<nat, Slot>::empty().insert(
                old(self).root_node->0 as nat,
                (old(self).graph.node_at(old(self).root_node->0 as nat), Seq::empty(), Seq::empty()),
            ),
            old(self).graph.edge_total() == 0,
            old(self).expanded_nodes@ == Set::<u128>::empty(),
        ensures
            final(self).wf(),
            final(self).root_node == old(self).root_node,
            final(self).graph.has_node(old(self).root_node->0 as nat),
            final(self).graph.node_at(old(self).root_node->0 as nat) == old(self).graph.node_at(
                old(self).root_node->0 as nat,
            ),
            final(self).graph.slots().dom().len() == 80,
            final(self).graph.edge_total() == 91,
            demo_world(final(self).graph, old(self).root_node->0 as nat),
            final(self).theme == old(self).theme,
            final(self).selected_node == old(self).selected_node,
            final(self).hovered_node == old(self).hovered_node,
            final(self).search_query@ == old(self).search_query@,
            final(self).search_results@ == old(self).search_results@,
            final(self).focus_stack@ == old(self).focus_stack@,
            final(self).expanded_nodes@ == set![
                old(self).graph.node_at(old(self).root_node->0 as nat).id,
            ],
            final(self).animating_nodes@ == old(self).animating_nodes@,
            final(self).last_mouse_pos == old(self).last_mouse_pos,
    {
        let root_idx = self.root_node.unwrap();
        proof {
            assert(self.graph.has_node(root_idx as nat));
        }
        let root_id = self.graph.get_node(root_idx).unwrap().id;
        self.expanded_nodes.insert(root_id);
        proof {
            assert(self.expanded_nodes@ =~= set![root_id]);
            assert(self.graph.slots().dom().len() == 1);
        }
        let ghost before = *self;
        let ghost root_node = self.graph.node_at(root_idx as nat);
        // The node at each position: the root, then the demo entries in order.
        let mut ids: Vec<usize> = Vec::new();
        ids.push(root_idx);
        proof {
            let h = Seq::<(int, int, Relation)>::empty();
            let m = self.graph.slots();
            assert(hist_out(h, 0) =~= Seq::<(int, Relation)>::empty());
            assert(hist_in(h, 0) =~= Seq::<int>::empty());
            assert(out_view(m[root_idx as nat].1) =~= placed_out(ids@, hist_out(h, 0)));
            assert(in_view(m[root_idx as nat].2) =~= placed(ids@, hist_in(h, 0)));
            assert(demo_contains().take(0) =~= h);
            assert forall|i: nat| #[trigger] self.graph.has_node(i) implies exists|q: int|
                0 <= q < ids@.len() && ids@[q] as nat == i by {
                assert(m.dom().contains(i));
                assert(ids@[0] as nat == i);
            }
        }
        let mut k: usize = 0;
        while k < 79
            invariant
                0 <= k <= 79,
                self.wf(),
                self.root_node == Some(root_idx),
                self.theme == before.theme,
                self.unchanged_nav(&before),
                self.expanded_nodes@ == before.expanded_nodes@,
                ids@.len() == k + 1,
                ids@[0] == root_idx,
                self.graph.node_at(root_idx as nat) == root_node,
                built_from(self.graph, ids@, demo_contains().take(k as int)),
                forall|j: int|
                    1 <= j <= k ==> (#[trigger] self.graph.node_at(ids@[j] as nat)).label@
                        == demo_entry(j - 1).0 && self.graph.node_at(ids@[j] as nat).node_type
                        == demo_entry(j - 1).1,
            decreases 79 - k,
        {
            let (label, node_type, parent) = demo_entry_at(k);
            let ghost g0 = self.graph;
            let ghost ids0 = ids@;
            let ghost h0 = demo_contains().take(k as int);
            proof {
                assert(self.graph.has_node(ids0[parent as int] as nat));
            }
            let child = self.add_child(ids[parent], label, node_type);
            ids.push(child);
            proof {
                let (mid, node, e) = choose|mid: WorldGraph, node: GraphNode, e: usize|
                    node_added(g0, mid, node, child) && node.label@ == label@ && node.node_type
                        == node_type && edge_added(
                        mid,
                        self.graph,
                        ids0[parent as int],
                        child,
                        e,
                        (GraphEdge { relation: Relation::Contains }),
                    );
                lemma_built_add_node(g0, mid, ids0, h0, node, child);
                lemma_built_add_edge(
                    mid,
                    self.graph,
                    ids@,
                    h0,
                    parent as int,
                    k as int + 1,
                    e,
                    GraphEdge { relation: Relation::Contains },
                );
                assert(demo_contains().take(k as int + 1) =~= h0.push(
                    (parent as int, k as int + 1, Relation::Contains),
                ));
                assert(ids@[0] == ids0[0]);
            }
            k = k + 1;
        }
        proof {
            assert(demo_contains().take(79) =~= demo_contains());
            assert(demo_history().take(79) =~= demo_contains());
        }
        let mut r: usize = 0;
        while r < 12
            invariant
                0 <= r <= 12,
                self.wf(),
                self.root_node == Some(root_idx),
                self.theme == before.theme,
                self.unchanged_nav(&before),
                self.expanded_nodes@ == before.expanded_nodes@,
                ids@.len() == 80,
                ids@[0] == root_idx,
                self.graph.node_at(root_idx as nat) == root_node,
                built_from(self.graph, ids@, demo_history().take(79 + r)),
                forall|j: int|
                    1 <= j < 80 ==> (#[trigger] self.graph.node_at(ids@[j] as nat)).label@
                        == demo_entry(j - 1).0 && self.graph.node_at(ids@[j] as nat).node_type
                        == demo_entry(j - 1).1,
            decreases 12 - r,
        {
            let (from, to) = demo_link_at(r);
            let ghost g0 = self.graph;
            let ghost h0 = demo_history().take(79 + r);
            proof {
                assert(self.graph.has_node(ids@[from as int] as nat));
                assert(self.graph.has_node(ids@[to as int] as nat));
            }
            self.add_ref(ids[from], ids[to]);
            proof {
                let e = choose|e: usize|
                    edge_added(
                        g0,
                        self.graph,
                        ids@[from as int],
                        ids@[to as int],
                        e,
                        (GraphEdge { relation: Relation::References }),
                    );
                lemma_built_add_edge(
                    g0,
                    self.graph,
                    ids@,
                    h0,
                    from as int,
                    to as int,
                    e,
                    GraphEdge { relation: Relation::References },
                );
                assert(demo_history().take(79 + r + 1) =~= h0.push(
                    (from as int, to as int, Relation::References),
                ));
            }
            r = r + 1;
        }
        proof {
            assert(demo_history().take(91) =~= demo_history());
            assert(demo_layout(self.graph, root_idx as nat, ids@));
        }
    }

    /// Adds a cross-reference edge `from -> to`.
    fn add_ref(&mut self, from: usize, to: usize)
        requires
            old(self).wf(),
            old(self).graph.has_node(from as nat),
            old(self).graph.has_node(to as nat),
            old(self).graph.edge_total() < index_limit(),
        ensures
            final(self).wf(),
            final(self).graph.slots().dom() == old(self).graph.slots().dom(),
            forall|i: nat| #[trigger]
                final(self).graph.has_node(i) ==> final(self).graph.node_at(i) == old(self).graph.node_at(i),
            final(self).graph.edge_total() == old(self).graph.edge_total() + 1,
            final(self).theme == old(self).theme,
            final(self).root_node == old(self).root_node,
            final(self).unchanged_nav(&*old(self)),
            old(self).root_node is Some && old(self).graph.has_node(old(self).root_node->0 as nat)
                ==> final(self).graph.node_at(old(self).root_node->0 as nat) == old(
                self,
            ).graph.node_at(old(self).root_node->0 as nat),
            exists|e: usize|
                edge_added(
                    old(self).graph,
                    final(self).graph,
                    from,
                    to,
                    e,
                    (GraphEdge { relation: Relation::References }),
                ),
    {
        let e = self.graph.add_edge(from, to, GraphEdge { relation: Relation::References });
        proof {
            assert(edge_added(
                old(self).graph,
                self.graph,
                from,
                to,
                e->0,
                GraphEdge { relation: Relation::References },
            ));
            assert(self.graph.slots().dom() =~= old(self).graph.slots().dom());
        }
    }

    /// Adds a node under `parent`, joined by a containment edge, and returns
    /// its index.
    fn add_child(&mut self, parent: usize, label: &str, node_type: NodeType) -> (child: usize)
        requires
            old(self).wf(),
            old(self).graph.has_node(parent as nat),
            old(self).graph.slots().dom().len() < index_limit(),
            old(self).graph.edge_total() < index_limit(),
        ensures
            final(self).wf(),
            !old(self).graph.has_node(child as nat),
            final(self).graph.slots().dom() == old(self).graph.slots().dom().insert(child as nat),
            final(self).graph.slots().dom().len() == old(self).graph.slots().dom().len() + 1,
            forall|i: nat| #[trigger]
                old(self).graph.has_node(i) ==> final(self).graph.node_at(i) == old(self).graph.node_at(i),
            final(self).graph.node_at(child as nat).label@ == label@,
            final(self).graph.node_at(child as nat).node_type == node_type,
            exists|mid: WorldGraph, node: GraphNode, e: usize|
                node_added(old(self).graph, mid, node, child) && node.label@ == label@ && node.node_type
                    == node_type && edge_added(
                    mid,
                    final(self).graph,
                    parent,
                    child,
                    e,
                    (GraphEdge { relation: Relation::Contains }),
                ),
            final(self).graph.edge_total() == old(self).graph.edge_total() + 1,
            final(self).theme == old(self).theme,
            final(self).root_node == old(self).root_node,
            final(self).unchanged_nav(&*old(self)),
            old(self).root_node is Some && old(self).graph.has_node(old(self).root_node->0 as nat)
                ==> final(self).graph.node_at(old(self).root_node->0 as nat) == old(
                self,
            ).graph.node_at(old(self).root_node->0 as nat),
    {
        proof {
            old(self).graph.lemma_wf();
        }
        let child = GraphNode::new(label.to_string(), node_type);
        let ghost node = child;
        let child_idx = self.graph.add_node(child);
        let ghost mid = self.graph;
        let e = self.graph.add_edge(parent, child_idx, GraphEdge { relation: Relation::Contains });
        proof {
            assert(node_added(old(self).graph, mid, node, child_idx) && edge_added(
                mid,
                self.graph,
                parent,
                child_idx,
                e->0,
                GraphEdge { relation: Relation::Contains },
            ));
            assert(self.graph.slots().dom() =~= old(self).graph.slots().dom().insert(child_idx as nat));
        }
        child_idx
    }

    /// The navigation fields, the search, the hover and the mouse are the same.
    pub open spec fn unchanged_nav(&self, other: &WorldState) -> bool {
        &&& self.same_trail(other)
        &&& self.selected_node == other.selected_node
        &&& self.hovered_node == other.hovered_node
        &&& self.search_query@ == other.search_query@
        &&& self.search_results@ == other.search_results@
        &&& self.last_mouse_pos == other.last_mouse_pos
    }

    /// Selects `id`; the camera aims at it and zooms to node level when the
    /// graph knows it.
    pub fn select_node(&mut self, id: u128) -> (cmds: Vec<ViewCommand>)
        requires
            old(self).wf(),
        ensures
            final(self).wf(),
            final(self).same_content(&*old(self)),
            final(self).same_trail(&*old(self)),
            final(self).selected_node == Some(id),
            cmds@ == select_commands(old(self).graph, id),
    {
        let mut cmds: Vec<ViewCommand> = Vec::new();
        self.selected_node = Some(id);
        if let Some(idx) = self.graph.node_by_id(id) {
            proof {
                self.graph.lemma_wf();
            }
            if let Some(_node) = self.graph.get_node(idx) {
                cmds.push(ViewCommand::FocusOn(idx));
                cmds.push(ViewCommand::ZoomTo(ZoomTarget::Node));
            }
        }
        proof {
            assert(cmds@ =~= select_commands(old(self).graph, id));
        }
        cmds
    }

    /// Zooms into the selected node, if any; see `zoom_into_node`.
    pub fn zoom_into_selected(&mut self) -> (cmds: Vec<ViewCommand>)
        requires
            old(self).wf(),
        ensures
            final(self).wf(),
            match old(self).selected_node {
                Some(id) => zoom_into_outcome(*old(self), *final(self), id, cmds@),
                None => final(self).unchanged(&*old(self)) && cmds@.len() == 0,
            },
    {
        if let Some(id) = self.selected_node {
            self.zoom_into_node(id)
        } else {
            Vec::new()
        }
    }

    /// Zooms into node `id` when it has children: the current selection goes
    /// on the trail, `id` becomes selected and expanded, its children start
    /// fading in, and the camera aims at it at the inside zoom. Otherwise
    /// nothing happens.
    pub fn zoom_into_node(&mut self, id: u128) -> (cmds: Vec<ViewCommand>)
        requires
            old(self).wf(),
        ensures
            final(self).wf(),
            zoom_into_outcome(*old(self), *final(self), id, cmds@),
    {
        let idx = match self.graph.node_by_id(id) {
            Some(idx) => idx,
            None => {
                return Vec::new();
            },
        };
        let children = self.graph.children_of(idx);
        if children.len() == 0 {
            return Vec::new();
        }
        proof {
            self.graph.lemma_wf();
        }
        let ghost m = self.graph.slots();
        let ghost old_anim = self.animating_nodes@;
        if let Some(parent_id) = self.selected_node {
            self.focus_stack.push(parent_id);
        }
        self.selected_node = Some(id);
        self.expanded_nodes.insert(id);

        let mut cmds: Vec<ViewCommand> = Vec::new();
        if let Some(_node) = self.graph.get_node(idx) {
            cmds.push(ViewCommand::FocusOn(idx));
            cmds.push(ViewCommand::ZoomTo(ZoomTarget::Inside));
        }
        let ghost ids = child_ids(self.graph, idx as nat);
        let ghost before = *self;
        let mut j: usize = 0;
        while j < children.len()
            invariant
                self.wf(),
                self.same_content(&before),
                self.selected_node == before.selected_node,
                self.focus_stack@ == before.focus_stack@,
                self.expanded_nodes@ == before.expanded_nodes@,
                m == self.graph.slots(),
                slots_closed(m),
                m.dom().contains(idx as nat),
                children@.len() == slot_children(m, idx as nat).len(),
                forall|k: int|
                    0 <= k < children@.len() ==> #[trigger] children@[k] as nat == slot_children(
                        m,
                        idx as nat,
                    )[k],
                ids == child_ids(self.graph, idx as nat),
                0 <= j <= children@.len(),
                self.animating_nodes@ == old_anim.union(ids.take(j as int).to_set()),
            decreases children@.len() - j,
        {
            let c = children[j];
            proof {
                assert(slot_children(m, idx as nat)[j as int] == m[idx as nat].1[j as int].0);
            }
            if let Some(child) = self.graph.get_node(c) {
                self.animating_nodes.insert(child.id);
            }
            proof {
                assert(ids[j as int] == self.graph.node_at(c as nat).id);
                assert(ids.take(j as int + 1) =~= ids.take(j as int).push(ids[j as int]));
                ids.take(j as int).lemma_push_to_set_commute(ids[j as int]);
                assert(self.animating_nodes@ =~= old_anim.union(ids.take(j as int + 1).to_set()));
            }
            j = j + 1;
        }
        proof {
            assert(ids.take(children@.len() as int) =~= ids);
        }
        cmds.push(ViewCommand::Reveal(idx));
        proof {
            assert(cmds@ =~= seq![
                ViewCommand::FocusOn(idx),
                ViewCommand::ZoomTo(ZoomTarget::Inside),
                ViewCommand::Reveal(idx),
            ]);
        }
        cmds
    }

    /// Goes up one level from the selection: to the node's parent (the source
    /// of its most recent incoming edge), else back along the trail, else to
    /// the root.
    pub fn zoom_to_parent(&mut self) -> (cmds: Vec<ViewCommand>)
        requires
            old(self).wf(),
        ensures
            final(self).wf(),
            zoom_to_parent_outcome(*old(self), *final(self), cmds@),
    {
        if let Some(current_id) = self.selected_node {
            let idx = match self.graph.node_by_id(current_id) {
                Some(idx) => idx,
                None => {
                    return Vec::new();
                },
            };
            proof {
                self.graph.lemma_wf();
            }
            if let Some(parent_idx) = self.graph.parent_of(idx) {
                proof {
                    let m = self.graph.slots();
                    assert(slot_parents(m, idx as nat)[0] == m[idx as nat].2[0].0);
                }
                let mut cmds: Vec<ViewCommand> = Vec::new();
                if let Some(parent) = self.graph.get_node(parent_idx) {
                    let parent_id = parent.id;
                    self.selected_node = Some(parent_id);
                    cmds.push(ViewCommand::FocusOn(parent_idx));
                    cmds.push(ViewCommand::ZoomTo(ZoomTarget::Node));
                }
                proof {
                    let p = slot_parents(self.graph.slots(), idx as nat)[0];
                    assert(p == parent_idx as nat);
                    assert((p as usize) == parent_idx);
                    assert(cmds@ =~= seq![
                        ViewCommand::FocusOn(parent_idx),
                        ViewCommand::ZoomTo(ZoomTarget::Node),
                    ]);
                }
                cmds
            } else if let Some(restored_id) = self.focus_stack.pop() {
                self.selected_node = Some(restored_id);
                let mut cmds: Vec<ViewCommand> = Vec::new();
                if let Some(restored_idx) = self.graph.node_by_id(restored_id) {
                    if let Some(_node) = self.graph.get_node(restored_idx) {
                        cmds.push(ViewCommand::FocusOn(restored_idx));
                        cmds.push(ViewCommand::ZoomTo(ZoomTarget::Node));
                    }
                }
                proof {
                    assert(cmds@ =~= select_commands(old(self).graph, restored_id));
                }
                cmds
            } else {
                self.focus_root()
            }
        } else {
            self.focus_root()
        }
    }

    /// Moves the selection to the next (or previous) child of the selected
    /// node's parent, wrapping around; a selected node without parent passes
    /// to its first child; with nothing selected, the root's first child is
    /// selected. The camera aims at the new selection.
    pub fn cycle_children(&mut self, forward: bool) -> (cmds: Vec<ViewCommand>)
        requires
            old(self).wf(),
        ensures
            final(self).wf(),
            final(self).same_content(&*old(self)),
            final(self).same_trail(&*old(self)),
            cycle_outcome(*old(self), forward, final(self).selected_node, cmds@),
    {
        proof {
            self.graph.lemma_wf();
        }
        let ghost m = self.graph.slots();
        if let Some(id) = self.selected_node {
            let idx = match self.graph.node_by_id(id) {
                Some(idx) => idx,
                None => {
                    return Vec::new();
                },
            };
            let parent_idx = self.graph.parent_of(idx);
            if let Some(parent_idx) = parent_idx {
                proof {
                    assert(slot_parents(m, idx as nat)[0] == m[idx as nat].2[0].0);
                }
                let siblings = self.graph.children_of(parent_idx);
                let ghost sib = slot_children(m, parent_idx as nat);
                let mut cmds: Vec<ViewCommand> = Vec::new();
                if siblings.len() > 0 {
                    let pos = position_in(&siblings, idx);
                    proof {
                        assert(siblings@.map_values(|v: usize| v as nat) =~= sib);
                    }
                    let next_pos = if forward {
                        if pos + 1 == siblings.len() {
                            0
                        } else {
                            pos + 1
                        }
                    } else {
                        if pos == 0 {
                            siblings.len() - 1
                        } else {
                            pos - 1
                        }
                    };
                    proof {
                        let n = siblings@.len() as int;
                        if forward {
                            assert(next_pos == (pos + 1) % n) by (nonlinear_arith)
                                requires
                                    0 <= pos < n,
                                    next_pos == (if pos + 1 == n { 0 } else { pos + 1 }),
                            ;
                        } else {
                            assert(next_pos == (pos + n - 1) % n) by (nonlinear_arith)
                                requires
                                    0 <= pos < n,
                                    next_pos == (if pos == 0 { n - 1 } else { pos - 1 }),
                            ;
                        }
                    }
                    let sibling_idx = siblings[next_pos];
                    proof {
                        assert(sib[next_pos as int] == m[parent_idx as nat].1[next_pos as int].0);
                    }
                    if let Some(child) = self.graph.get_node(sibling_idx) {
                        self.selected_node = Some(child.id);
                        cmds.push(ViewCommand::FocusOn(sibling_idx));
                    }
                }
                cmds
            } else {
                self.select_first_child(idx)
            }
        } else {
            if let Some(root_idx) = self.root_node {
                self.select_first_child(root_idx)
            } else {
                Vec::new()
            }
        }
    }

    /// Selects the first child of `idx` and aims at it; nothing when it has
    /// no child.
    fn select_first_child(&mut self, idx: usize) -> (cmds: Vec<ViewCommand>)
        requires
            old(self).wf(),
        ensures
            final(self).wf(),
            final(self).same_content(&*old(self)),
            final(self).same_trail(&*old(self)),
            first_child_outcome(
                old(self).graph,
                idx as nat,
                old(self).selected_node,
                final(self).selected_node,
                cmds@,
            ),
    {
        proof {
            self.graph.lemma_wf();
        }
        let ghost m = self.graph.slots();
        let children = self.graph.children_of(idx);
        let mut cmds: Vec<ViewCommand> = Vec::new();
        if children.len() > 0 {
            let child_idx = children[0];
            proof {
                assert(slot_children(m, idx as nat)[0] == m[idx as nat].1[0].0);
            }
            if let Some(child) = self.graph.get_node(child_idx) {
                self.selected_node = Some(child.id);
                cmds.push(ViewCommand::FocusOn(child_idx));
            }
        }
        cmds
    }

    /// Clears the selection and zooms back to the overview.
    pub fn deselect(&mut self) -> (cmds: Vec<ViewCommand>)
        ensures
            final(self).wf() == old(self).wf(),
            final(self).same_content(&*old(self)),
            final(self).same_trail(&*old(self)),
            final(self).selected_node is None,
            cmds@ == seq![ViewCommand::ZoomTo(ZoomTarget::Overview)],
    {
        self.selected_node = None;
        let mut cmds: Vec<ViewCommand> = Vec::new();
        cmds.push(ViewCommand::ZoomTo(ZoomTarget::Overview));
        cmds
    }

    /// Sets the query and finds the nodes whose lowercased label contains the
    /// lowercased query, in node index order; the empty query finds nothing.
    pub fn search(&mut self, query: &str)
        requires
            old(self).wf(),
        ensures
            final(self).wf(),
            final(self).graph == old(self).graph,
            final(self).theme == old(self).theme,
            final(self).hovered_node == old(self).hovered_node,
            final(self).root_node == old(self).root_node,
            final(self).last_mouse_pos == old(self).last_mouse_pos,
            final(self).same_trail(&*old(self)),
            final(self).selected_node == old(self).selected_node,
            final(self).search_query@ == query@,
            final(self).search_results@ == search_hits(old(self).graph, query@),
    {
        self.search_query = query.to_string();
        self.search_results.clear();
        if query.is_empty() {
            return;
        }
        let query_lower = to_lowercase(query);
        let ghost g = self.graph;
        let idxs = self.graph.node_indices();
        let ghost sorted = sorted_indices(g.slots());
        let ghost before = *self;
        let mut j: usize = 0;
        while j < idxs.len()
            invariant
                self.wf(),
                self.theme == before.theme,
                self.hovered_node == before.hovered_node,
                self.root_node == before.root_node,
                self.last_mouse_pos == before.last_mouse_pos,
                self.same_trail(&before),
                self.selected_node == before.selected_node,
                self.search_query@ == before.search_query@,
                self.graph == g,
                idxs@.len() == sorted.len(),
                sorted == sorted_indices(g.slots()),
                forall|k: int| 0 <= k < idxs@.len() ==> #[trigger] idxs@[k] as nat == sorted[k],
                query_lower@ == lowercase(query@),
                0 <= j <= idxs@.len(),
                self.search_results@ == hits_among(g, sorted.take(j as int), query@),
            decreases idxs@.len() - j,
        {
            let idx = idxs[j];
            proof {
                assert(sorted.take(j as int + 1).drop_last() =~= sorted.take(j as int));
                assert(sorted.take(j as int + 1).last() == idx as nat);
                lemma_sorted_live(g.slots(), j as int);
            }
            if let Some(node) = self.graph.get_node(idx) {
                let label_lower = to_lowercase(node.label.as_str());
                if str_contains(label_lower.as_str(), query_lower.as_str()) {
                    self.search_results.push(node.id);
                }
            }
            j = j + 1;
        }
        proof {
            assert(sorted.take(idxs@.len() as int) =~= sorted);
        }
    }

    /// Selects the search hit at `index`, if there is one.
    pub fn navigate_to_search_result(&mut self, index: usize) -> (cmds: Vec<ViewCommand>)
        requires
            old(self).wf(),
        ensures
            final(self).wf(),
            final(self).same_content(&*old(self)),
            final(self).same_trail(&*old(self)),
            index < old(self).search_results@.len() ==> {
                &&& final(self).selected_node == Some(old(self).search_results@[index as int])
                &&& cmds@ == select_commands(
                    old(self).graph,
                    old(self).search_results@[index as int],
                )
            },
            index >= old(self).search_results@.len() ==> final(self).selected_node
                == old(self).selected_node && cmds@.len() == 0,
    {
        if index < self.search_results.len() {
            let id = self.search_results[index];
            self.select_node(id)
        } else {
            Vec::new()
        }
    }

    /// Clears the selection and the trail and goes back to the root at the
    /// overview zoom.
    pub fn focus_root(&mut self) -> (cmds: Vec<ViewCommand>)
        requires
            old(self).wf(),
        ensures
            final(self).wf(),
            final(self).same_content(&*old(self)),
            final(self).selected_node is None,
            final(self).focus_stack@.len() == 0,
            final(self).expanded_nodes@ == old(self).expanded_nodes@,
            final(self).animating_nodes@ == old(self).animating_nodes@,
            cmds@ == root_commands(*old(self)),
    {
        self.selected_node = None;
        self.focus_stack.clear();
        let mut cmds: Vec<ViewCommand> = Vec::new();
        cmds.push(ViewCommand::ZoomTo(ZoomTarget::Overview));
        if let Some(root_idx) = self.root_node {
            if let Some(_node) = self.graph.get_node(root_idx) {
                cmds.push(ViewCommand::FocusOn(root_idx));
            }
        }
        proof {
            assert(cmds@ =~= root_commands(*old(self)));
        }
        cmds
    }

    pub fn is_node_expanded(&self, id: u128) -> (r: bool)
        ensures
            r == self.expanded_nodes@.contains(id),
    {
        self.expanded_nodes.contains(&id)
    }

    /// How many nodes deep the trail is.
    pub fn current_focus_depth(&self) -> (n: usize)
        ensures
            n == self.focus_stack@.len(),
    {
        self.focus_stack.len()
    }

    /// The ids of the selected node's children, in edge-list order; empty when
    /// nothing known is selected.
    pub fn get_selected_children(&self) -> (r: Vec<u128>)
        requires
            self.wf(),
        ensures
            r@ == match self.selected_node {
                Some(id) => match self.graph.index_of(id) {
                    Some(i) => child_ids(self.graph, i as nat),
                    None => Seq::empty(),
                },
                None => Seq::empty(),
            },
    {
        let mut r: Vec<u128> = Vec::new();
        if let Some(id) = self.selected_node {
            if let Some(idx) = self.graph.node_by_id(id) {
                proof {
                    self.graph.lemma_wf();
                }
                let ghost m = self.graph.slots();
                let ghost ids = child_ids(self.graph, idx as nat);
                let children = self.graph.children_of(idx);
                let mut j: usize = 0;
                while j < children.len()
                    invariant
                        self.wf(),
                        m == self.graph.slots(),
                        slots_closed(m),
                        m.dom().contains(idx as nat),
                        children@.len() == slot_children(m, idx as nat).len(),
                        forall|k: int|
                            0 <= k < children@.len() ==> #[trigger] children@[k] as nat
                                == slot_children(m, idx as nat)[k],
                        ids == child_ids(self.graph, idx as nat),
                        0 <= j <= children@.len(),
                        r@ == ids.take(j as int),
                    decreases children@.len() - j,
                {
                    let c = children[j];
                    proof {
                        assert(slot_children(m, idx as nat)[j as int] == m[idx as nat].1[j as int].0);
                    }
                    if let Some(child) = self.graph.get_node(c) {
                        r.push(child.id);
                    }
                    proof {
                        assert(r@ =~= ids.take(j as int + 1));
                    }
                    j = j + 1;
                }
                proof {
                    assert(ids.take(children@.len() as int) =~= ids);
                }
            }
        }
        r
    }

    /// The labels along the trail, then the selected node's label; ids that
    /// the graph does not know are skipped.
    pub fn get_breadcrumb(&self) -> (r: Vec<String>)
        requires
            self.wf(),
        ensures
            r@.map_values(|s: String| s@) == known_labels(
                self.graph,
                self.focus_stack@ + match self.selected_node {
                    Some(id) => seq![id],
                    None => Seq::empty(),
                },
            ),
    {
        let mut r: Vec<String> = Vec::new();
        let mut j: usize = 0;
        while j < self.focus_stack.len()
            invariant
                self.wf(),
                0 <= j <= self.focus_stack@.len(),
                r@.map_values(|s: String| s@) == known_labels(self.graph, self.focus_stack@.take(j as int)),
            decreases self.focus_stack@.len() - j,
        {
            let id = self.focus_stack[j];
            proof {
                assert(self.focus_stack@.take(j as int + 1).drop_last() =~= self.focus_stack@.take(j as int));
            }
            self.push_label(&mut r, id);
            j = j + 1;
        }
        let ghost trail = self.focus_stack@;
        proof {
            assert(trail.take(trail.len() as int) =~= trail);
        }
        if let Some(id) = self.selected_node {
            proof {
                assert((trail + seq![id]).drop_last() =~= trail);
            }
            self.push_label(&mut r, id);
        } else {
            proof {
                assert(trail + Seq::<u128>::empty() =~= trail);
            }
        }
        r
    }

    /// Appends the label of `id` when the graph knows it.
    fn push_label(&self, r: &mut Vec<String>, id: u128)
        requires
            self.wf(),
        ensures
            final(r)@.map_values(|s: String| s@) == match self.graph.index_of(id) {
                Some(i) => old(r)@.map_values(|s: String| s@).push(self.graph.node_at(i as nat).label@),
                None => old(r)@.map_values(|s: String| s@),
            },
    {
        if let Some(idx) = self.graph.node_by_id(id) {
            proof {
                self.graph.lemma_wf();
            }
            if let Some(node) = self.graph.get_node(idx) {
                let label = node.label.clone();
                r.push(label);
                proof {
                    assert(r@.map_values(|s: String| s@) =~= old(r)@.map_values(|s: String| s@).push(
                        self.graph.node_at(idx as nat).label@,
                    ));
                }
            }
        }
    }
}

/// The first place of `idx` among `siblings`, or 0 when it is not there.
fn position_in(siblings: &Vec<usize>, idx: usize) -> (pos: usize)
    requires
        siblings@.len() > 0,
    ensures
        pos < siblings@.len(),
        pos == match first_index(siblings@.map_values(|v: usize| v as nat), idx as nat) {
            Some(k) => k,
            None => 0,
        },
{
    let ghost s = siblings@.map_values(|v: usize| v as nat);
    let mut k: usize = 0;
    while k < siblings.len()
        invariant
            s == siblings@.map_values(|v: usize| v as nat),
            0 <= k <= siblings@.len(),
            forall|i: int| 0 <= i < k ==> siblings@[i] != idx,
        decreases siblings@.len() - k,
    {
        if siblings[k] == idx {
            proof {
                lemma_first_index_found(s, idx as nat, k as int);
            }
            return k;
        }
        k = k + 1;
    }
    proof {
        lemma_first_index_absent(s, idx as nat);
    }
    0
}

/// The `k`-th index in increasing order is a live node.
proof fn lemma_sorted_live(m: Map<nat, Slot>, k: int)
    requires
        0 <= k < sorted_indices(m).len(),
    ensures
        m.dom().contains(sorted_indices(m)[k]),
{
    lemma_below_live(m, index_limit(), k);
}

proof fn lemma_below_live(m: Map<nat, Slot>, bound: nat, k: int)
    requires
        0 <= k < crate::graph::stable::indices_below(m, bound).len(),
    ensures
        m.dom().contains(crate::graph::stable::indices_below(m, bound)[k]),
    decreases bound,
{
    if bound > 0 {
        let rest = crate::graph::stable::indices_below(m, (bound - 1) as nat);
        if k < rest.len() {
            lemma_below_live(m, (bound - 1) as nat, k);
        }
    }
}

/// What `zoom_into_node(id)` does, from `a` to `b`, handing back `cmds`.
pub open spec fn zoom_into_outcome(a: WorldState, b: WorldState, id: u128, cmds: Seq<ViewCommand>) -> bool {
    match a.graph.index_of(id) {
        Some(i) => if slot_children(a.graph.slots(), i as nat).len() == 0 {
            b.unchanged(&a) && cmds.len() == 0
        } else {
            &&& b.same_content(&a)
            &&& b.focus_stack@ == match a.selected_node {
                Some(p) => a.focus_stack@.push(p),
                None => a.focus_stack@,
            }
            &&& b.selected_node == Some(id)
            &&& b.expanded_nodes@ == a.expanded_nodes@.insert(id)
            &&& b.animating_nodes@ == a.animating_nodes@.union(child_ids(a.graph, i as nat).to_set())
            &&& cmds == seq![
                ViewCommand::FocusOn(i),
                ViewCommand::ZoomTo(ZoomTarget::Inside),
                ViewCommand::Reveal(i),
            ]
        },
        None => b.unchanged(&a) && cmds.len() == 0,
    }
}

/// What `zoom_to_parent()` does, from `a` to `b`, handing back `cmds`.
pub open spec fn zoom_to_parent_outcome(a: WorldState, b: WorldState, cmds: Seq<ViewCommand>) -> bool {
    let to_root = {
        &&& b.same_content(&a)
        &&& b.selected_node is None
        &&& b.focus_stack@.len() == 0
        &&& b.expanded_nodes@ == a.expanded_nodes@
        &&& b.animating_nodes@ == a.animating_nodes@
        &&& cmds == root_commands(a)
    };
    match a.selected_node {
        None => to_root,
        Some(cur) => match a.graph.index_of(cur) {
            None => b.unchanged(&a) && cmds.len() == 0,
            Some(i) => {
                let parents = slot_parents(a.graph.slots(), i as nat);
                if parents.len() > 0 {
                    let p = parents[0];
                    &&& b.same_content(&a)
                    &&& b.same_trail(&a)
                    &&& b.selected_node == Some(a.graph.node_at(p).id)
                    &&& cmds == seq![
                        ViewCommand::FocusOn(p as usize),
                        ViewCommand::ZoomTo(ZoomTarget::Node),
                    ]
                } else if a.focus_stack@.len() > 0 {
                    let r = a.focus_stack@.last();
                    &&& b.same_content(&a)
                    &&& b.focus_stack@ == a.focus_stack@.drop_last()
                    &&& b.expanded_nodes@ == a.expanded_nodes@
                    &&& b.animating_nodes@ == a.animating_nodes@
                    &&& b.selected_node == Some(r)
                    &&& cmds == select_commands(a.graph, r)
                } else {
                    to_root
                }
            },
        },
    }
}

/// What selecting the first child of node `i` gives: the selection and the
/// camera work.
pub open spec fn first_child_outcome(
    g: WorldGraph,
    i: nat,
    before: Option<u128>,
    after: Option<u128>,
    cmds: Seq<ViewCommand>,
) -> bool {
    let children = slot_children(g.slots(), i);
    if children.len() > 0 {
        &&& after == Some(g.node_at(children[0]).id)
        &&& cmds == seq![ViewCommand::FocusOn(children[0] as usize)]
    } else {
        after == before && cmds.len() == 0
    }
}

/// What `cycle_children(forward)` selects and asks of the camera.
pub open spec fn cycle_outcome(
    a: WorldState,
    forward: bool,
    after: Option<u128>,
    cmds: Seq<ViewCommand>,
) -> bool {
    match a.selected_node {
        None => match a.root_node {
            Some(r) => first_child_outcome(a.graph, r as nat, a.selected_node, after, cmds),
            None => after == a.selected_node && cmds.len() == 0,
        },
        Some(id) => match a.graph.index_of(id) {
            None => after == a.selected_node && cmds.len() == 0,
            Some(i) => {
                let parents = slot_parents(a.graph.slots(), i as nat);
                if parents.len() > 0 {
                    let sib = slot_children(a.graph.slots(), parents[0]);
                    if sib.len() > 0 {
                        let pos = match first_index(sib, i as nat) {
                            Some(k) => k,
                            None => 0,
                        };
                        let next = if forward {
                            (pos + 1) % (sib.len() as int)
                        } else {
                            (pos + sib.len() - 1) % (sib.len() as int)
                        };
                        &&& after == Some(a.graph.node_at(sib[next]).id)
                        &&& cmds == seq![ViewCommand::FocusOn(sib[next] as usize)]
                    } else {
                        after == a.selected_node && cmds.len() == 0
                    }
                } else {
                    first_child_outcome(a.graph, i as nat, a.selected_node, after, cmds)
                }
            },
        },
    }
}

impl Default for WorldState {
    /// The demo world of `new`.
    fn default() -> (w: Self)
        ensures
            w.wf(),
            w.root_node is Some,
            w.graph.has_node(w.root_node->0 as nat),
            w.graph.node_at(w.root_node->0 as nat).label@ == "VOID"@,
            w.graph.node_at(w.root_node->0 as nat).node_type == NodeType::Root,
            w.graph.slots().dom().len() == 80,
            w.graph.edge_total() == 91,
            demo_world(w.graph, w.root_node->0 as nat),
            w.theme == void_dark_theme(),
            w.selected_node is None,
            w.hovered_node is None,
            w.search_query@.len() == 0,
            w.search_results@.len() == 0,
            w.focus_stack@.len() == 0,
            w.expanded_nodes@ == set![w.graph.node_at(w.root_node->0 as nat).id],
            w.animating_nodes@.len() == 0,
            w.last_mouse_pos is None,
    {
        Self::new()
    }
}

} // verus!
