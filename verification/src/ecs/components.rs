use vstd::prelude::*;
use crate::ids::{fresh_id, is_v4_id};

verus! {

/// An entity of the world as the component store sees it.
#[derive(Debug, Clone)]
pub struct Node {
    pub id: u128,
    pub node_type: NodeType,
    pub label: String,
    pub depth: u32,
    pub collapsed: bool,
}

impl Node {
    /// A fresh entity with a random id, depth 0, not collapsed.
    pub fn new(node_type: NodeType, label: String) -> (n: Self)
        ensures
            n.node_type == node_type,
            n.label@ == label@,
            n.depth == 0,
            !n.collapsed,
            is_v4_id(n.id),
    {
        Self { id: fresh_id(), node_type, label, depth: 0, collapsed: false }
    }
}

impl Default for Node {
    /// A root entity with an empty label and a fresh id.
    fn default() -> (n: Self)
        ensures
            n.node_type == NodeType::Root,
            n.label@.len() == 0,
            n.depth == 0,
            !n.collapsed,
            is_v4_id(n.id),
    {
        Self::new(NodeType::Root, String::new())
    }
}

#[derive(Debug, Clone, Copy, PartialEq, Eq, Hash, Structural)]
pub enum NodeType {
    Root,
    Project,
    Task,
    Note,
    File,
    Person,
    Music,
    Artist,
    Album,
    Song,
    Bookmark,
    Knowledge,
    Event,
    Cluster,
}

impl Default for NodeType {
    fn default() -> (t: Self)
        ensures
            t == NodeType::Root,
    {
        Self::Root
    }
}

/// Whether an entity is selected and whether the pointer is over it.
#[derive(Debug, Clone, Copy)]
pub struct Selectable {
    pub selected: bool,
    pub hovered: bool,
}

impl Default for Selectable {
    fn default() -> (s: Self)
        ensures
            !s.selected,
            !s.hovered,
    {
        Self { selected: false, hovered: false }
    }
}

/// How an entity is drawn: its glyph and its RGB colour.
#[derive(Debug, Clone, Copy)]
pub struct NodeAppearance {
    pub glyph: char,
    pub color: (u8, u8, u8),
}

impl Default for NodeAppearance {
    /// A light grey dot.
    fn default() -> (a: Self)
        ensures
            a.glyph == '\u{25CF}',
            a.color == (200u8, 200u8, 200u8),
    {
        Self { glyph: '\u{25CF}', color: (200, 200, 200) }
    }
}

} // verus!
