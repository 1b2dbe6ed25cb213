use void::graph::layout::{group_by_depth, hierarchy_levels};
use void::graph::types::{GraphEdge, GraphNode, NodeType, Relation, WorldGraph};

fn node(label: &str) -> GraphNode {
    GraphNode::new(label.to_string(), NodeType::Note)
}

fn edge(relation: Relation) -> GraphEdge {
    GraphEdge { relation }
}

#[test]
fn add_node_then_find_by_id() {
    let mut g = WorldGraph::new();
    let n = node("alpha");
    let id = n.id;
    let idx = g.add_node(n);
    assert_eq!(g.node_by_id(id), Some(idx));
    assert_eq!(g.get_node(idx).unwrap().label, "alpha");
    assert_eq!(g.get_node(idx).unwrap().id, id);
    assert_eq!(g.node_count(), 1);
    assert_eq!(g.edge_count(), 0);
}

#[test]
fn new_node_fields() {
    let n = GraphNode::new("beta".to_string(), NodeType::Task);
    assert_eq!(n.label, "beta");
    assert_eq!(n.node_type, NodeType::Task);
    assert_eq!(n.depth, 0);
    assert!(!n.collapsed);
    // a version-4 identifier: version nibble 4, variant bits 10
    assert_eq!((n.id >> 76) & 0xF, 4);
    assert_eq!((n.id >> 62) & 0x3, 2);
}

#[test]
fn fresh_ids_differ() {
    let a = node("a");
    let b = node("a");
    assert_ne!(a.id, b.id);
}

#[test]
fn unknown_ids_and_indices() {
    let mut g = WorldGraph::new();
    let idx = g.add_node(node("x"));
    assert_eq!(g.node_by_id(12345), None);
    assert!(g.get_node(idx + 7).is_none());
    assert!(g.children_of(idx + 7).is_empty());
    assert_eq!(g.parent_of(idx + 7), None);
    assert!(g.connected_to(idx + 7).is_empty());
}

#[test]
fn remove_undoes_add() {
    let mut g = WorldGraph::new();
    let a = g.add_node(node("a"));
    let n = node("b");
    let id = n.id;
    let b = g.add_node(n);
    let removed = g.remove_node(b).unwrap();
    assert_eq!(removed.id, id);
    assert_eq!(removed.label, "b");
    assert_eq!(g.node_count(), 1);
    assert_eq!(g.node_by_id(id), None);
    assert!(g.get_node(a).is_some());
    assert!(g.remove_node(b).is_none());
}

#[test]
fn newest_edge_first() {
    let mut g = WorldGraph::new();
    let a = g.add_node(node("a"));
    let b = g.add_node(node("b"));
    let c = g.add_node(node("c"));
    assert!(g.add_edge(a, b, edge(Relation::Contains)).is_some());
    assert!(g.add_edge(a, c, edge(Relation::Contains)).is_some());
    assert_eq!(g.children_of(a), vec![c, b]);
    assert_eq!(g.parent_of(c), Some(a));
    assert_eq!(g.parent_of(a), None);
    assert!(g.add_edge(b, c, edge(Relation::References)).is_some());
    assert_eq!(g.parent_of(c), Some(b));
    assert_eq!(g.edge_count(), 3);
    let out: Vec<(usize, Relation)> = g.connected_to(a).into_iter().map(|(t, e)| (t, e.relation)).collect();
    assert_eq!(out, vec![(c, Relation::Contains), (b, Relation::Contains)]);
}

#[test]
fn removing_a_node_drops_its_edges() {
    let mut g = WorldGraph::new();
    let a = g.add_node(node("a"));
    let b = g.add_node(node("b"));
    let c = g.add_node(node("c"));
    g.add_edge(a, b, edge(Relation::Contains));
    g.add_edge(a, c, edge(Relation::Contains));
    g.add_edge(b, c, edge(Relation::DependsOn));
    g.add_edge(c, c, edge(Relation::RelatedTo));
    assert_eq!(g.edge_count(), 4);
    g.remove_node(c);
    assert_eq!(g.children_of(a), vec![b]);
    assert!(g.children_of(b).is_empty());
    assert_eq!(g.edge_count(), 1);
    assert_eq!(g.node_count(), 2);
}

#[test]
fn default_edge_is_related_to() {
    assert_eq!(GraphEdge::default().relation, Relation::RelatedTo);
    let g = WorldGraph::default();
    assert_eq!(g.node_count(), 0);
}

fn chain() -> (WorldGraph, usize, usize, usize, usize) {
    // a -> b -> c, a -> c, d alone
    let mut g = WorldGraph::new();
    let a = g.add_node(node("a"));
    let b = g.add_node(node("b"));
    let c = g.add_node(node("c"));
    let d = g.add_node(node("d"));
    g.add_edge(a, b, edge(Relation::Contains));
    g.add_edge(b, c, edge(Relation::Contains));
    g.add_edge(a, c, edge(Relation::References));
    (g, a, b, c, d)
}

#[test]
fn bfs_gives_shortest_depths() {
    let (g, a, b, c, _d) = chain();
    // neighbours of a are listed newest first: c, then b
    assert_eq!(g.bfs_from(a, 10), vec![(a, 0), (c, 1), (b, 1)]);
    assert_eq!(g.bfs_from(b, 10), vec![(b, 0), (c, 1)]);
}

#[test]
fn bfs_depth_zero_is_start_alone() {
    let (g, a, _b, _c, _d) = chain();
    assert_eq!(g.bfs_from(a, 0), vec![(a, 0)]);
}

#[test]
fn bfs_stops_at_max_depth() {
    let mut g = WorldGraph::new();
    let a = g.add_node(node("a"));
    let b = g.add_node(node("b"));
    let c = g.add_node(node("c"));
    g.add_edge(a, b, edge(Relation::Contains));
    g.add_edge(b, c, edge(Relation::Contains));
    assert_eq!(g.bfs_from(a, 1), vec![(a, 0), (b, 1)]);
    assert_eq!(g.bfs_from(a, u32::MAX), vec![(a, 0), (b, 1), (c, 2)]);
}

#[test]
fn bfs_from_missing_start() {
    let (g, _a, _b, _c, d) = chain();
    assert_eq!(g.bfs_from(d + 100, 5), vec![(d + 100, 0)]);
    assert_eq!(g.bfs_from(d, 5), vec![(d, 0)]);
}

#[test]
fn bfs_with_cycle() {
    let mut g = WorldGraph::new();
    let a = g.add_node(node("a"));
    let b = g.add_node(node("b"));
    g.add_edge(a, b, edge(Relation::Contains));
    g.add_edge(b, a, edge(Relation::Contains));
    assert_eq!(g.bfs_from(a, 100), vec![(a, 0), (b, 1)]);
}

#[test]
fn scc_partitions_nodes() {
    let mut g = WorldGraph::new();
    let a = g.add_node(node("a"));
    let b = g.add_node(node("b"));
    let c = g.add_node(node("c"));
    g.add_edge(a, b, edge(Relation::Contains));
    g.add_edge(b, a, edge(Relation::Contains));
    g.add_edge(b, c, edge(Relation::Contains));
    let comps: Vec<Vec<usize>> = g
        .find_scc()
        .into_iter()
        .map(|mut v| {
            v.sort();
            v
        })
        .collect();
    // reverse topological order: c's component, which the edge b -> c
    // leads to, comes first
    assert_eq!(comps, vec![vec![c], vec![a, b]]);
}

#[test]
fn levels_group_walk_by_depth() {
    let (g, a, b, c, _d) = chain();
    assert_eq!(hierarchy_levels(&g, a), vec![vec![a], vec![c, b]]);
    let entries = vec![(4usize, 0u32), (5, 2), (6, 2)];
    assert_eq!(group_by_depth(&entries), vec![vec![4], vec![], vec![5, 6]]);
    assert!(group_by_depth(&Vec::new()).is_empty());
}

#[test]
fn bfs_lists_each_level_in_discovery_order() {
    // r -> x, r -> y (y newest, so listed first); x -> p, y -> q, y -> x
    let mut g = WorldGraph::new();
    let r = g.add_node(node("r"));
    let x = g.add_node(node("x"));
    let y = g.add_node(node("y"));
    let p = g.add_node(node("p"));
    let q = g.add_node(node("q"));
    g.add_edge(r, x, edge(Relation::Contains));
    g.add_edge(r, y, edge(Relation::Contains));
    g.add_edge(x, p, edge(Relation::Contains));
    g.add_edge(y, x, edge(Relation::References));
    g.add_edge(y, q, edge(Relation::Contains));
    // y is discovered before x, so y's child q comes before x's child p
    assert_eq!(g.bfs_from(r, 5), vec![(r, 0), (y, 1), (x, 1), (q, 2), (p, 2)]);
    assert_eq!(hierarchy_levels(&g, r), vec![vec![r], vec![y, x], vec![q, p]]);
}

#[test]
fn indices_beyond_the_index_type_name_no_node() {
    let mut g = WorldGraph::new();
    let a = g.add_node(node("a"));
    let b = g.add_node(node("b"));
    g.add_edge(a, b, edge(Relation::Contains));
    if let Some(far) = a.checked_add(1usize << 32) {
        assert!(g.get_node(far).is_none());
        assert!(g.children_of(far).is_empty());
        assert!(g.parent_of(b.checked_add(1usize << 32).unwrap()).is_none());
        assert!(g.connected_to(far).is_empty());
        assert!(g.remove_node(far).is_none());
    }
    assert_eq!(g.children_of(a), vec![b]);
    assert_eq!(g.parent_of(b), Some(a));
    assert_eq!(g.node_count(), 2);
}
