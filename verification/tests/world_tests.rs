use std::collections::HashMap;
use void::graph::types::Relation;
use void::state::events::{handle_input, LoopStep};
use void::state::input::{
    handle_key_event, handle_mouse_event, search_edit_allowed, InputEvent, KeyCode, KeyEvent, MouseButton, MouseEvent,
    MouseEventKind,
};
use void::state::world::{ViewCommand, WorldState, ZoomTarget};

fn key(code: KeyCode) -> KeyEvent {
    KeyEvent { code, ctrl: false }
}

fn id_of(w: &WorldState, label: &str) -> u128 {
    for idx in w.graph.node_indices() {
        let n = w.graph.get_node(idx).unwrap();
        if n.label == label {
            return n.id;
        }
    }
    panic!("no node labelled {}", label);
}

fn label_of(w: &WorldState, id: u128) -> String {
    let idx = w.graph.node_by_id(id).unwrap();
    w.graph.get_node(idx).unwrap().label.clone()
}

#[test]
fn new_world_holds_the_demo_content() {
    let w = WorldState::new();
    assert_eq!(w.graph.node_count(), 80);
    assert_eq!(w.graph.edge_count(), 91);
    let root = w.root_node.unwrap();
    assert_eq!(w.graph.get_node(root).unwrap().label, "VOID");
    assert!(w.is_node_expanded(w.graph.get_node(root).unwrap().id));
    assert_eq!(w.selected_node, None);
    assert_eq!(w.current_focus_depth(), 0);
    assert!(w.search_query.is_empty());
    assert!(w.animating_nodes.is_empty());
    assert_eq!(w.theme, void::render::themes::Theme::void_dark());
}

#[test]
fn root_children_newest_first() {
    let w = WorldState::new();
    let root = w.root_node.unwrap();
    let labels: Vec<String> = w
        .graph
        .children_of(root)
        .into_iter()
        .map(|c| w.graph.get_node(c).unwrap().label.clone())
        .collect();
    assert_eq!(labels, vec!["Bookmarks", "Tasks", "People", "Music", "Notes", "Code"]);
}

#[test]
fn select_then_deselect() {
    let mut w = WorldState::new();
    let id = id_of(&w, "Music");
    let idx = w.graph.node_by_id(id).unwrap();
    let cmds = w.select_node(id);
    assert_eq!(cmds, vec![ViewCommand::FocusOn(idx), ViewCommand::ZoomTo(ZoomTarget::Node)]);
    assert_eq!(w.selected_node, Some(id));
    assert_eq!(w.deselect(), vec![ViewCommand::ZoomTo(ZoomTarget::Overview)]);
    assert_eq!(w.selected_node, None);
}

#[test]
fn select_unknown_id_moves_no_camera() {
    let mut w = WorldState::new();
    assert!(w.select_node(42).is_empty());
    assert_eq!(w.selected_node, Some(42));
}

#[test]
fn zoom_into_node_and_back() {
    let mut w = WorldState::new();
    let music = id_of(&w, "Music");
    let nujabes = id_of(&w, "Nujabes");
    let music_idx = w.graph.node_by_id(music).unwrap();
    let nuj_idx = w.graph.node_by_id(nujabes).unwrap();
    w.select_node(music);
    let cmds = w.zoom_into_node(nujabes);
    assert_eq!(
        cmds,
        vec![
            ViewCommand::FocusOn(nuj_idx),
            ViewCommand::ZoomTo(ZoomTarget::Inside),
            ViewCommand::Reveal(nuj_idx),
        ]
    );
    assert_eq!(w.selected_node, Some(nujabes));
    assert_eq!(w.focus_stack, vec![music]);
    assert!(w.is_node_expanded(nujabes));
    // every outgoing edge counts: two albums and the cross-reference to DJ Okawari
    assert!(w.animating_nodes.contains(&id_of(&w, "Modal Soul")));
    assert!(w.animating_nodes.contains(&id_of(&w, "Hydeout Productions 1st Collection")));
    assert!(w.animating_nodes.contains(&id_of(&w, "DJ Okawari")));
    assert_eq!(w.animating_nodes.len(), 3);
    assert_eq!(w.get_breadcrumb(), vec!["Music".to_string(), "Nujabes".to_string()]);
    // Nujabes's parent is Music, reached through its containment edge
    let back = w.zoom_to_parent();
    assert_eq!(back, vec![ViewCommand::FocusOn(music_idx), ViewCommand::ZoomTo(ZoomTarget::Node)]);
    assert_eq!(w.selected_node, Some(music));
}

#[test]
fn zoom_into_leaf_does_nothing() {
    let mut w = WorldState::new();
    let leaf = id_of(&w, "Sunset");
    assert!(w.zoom_into_node(leaf).is_empty());
    assert_eq!(w.selected_node, None);
    assert!(w.zoom_into_node(7).is_empty());
}

#[test]
fn parent_follows_newest_incoming_edge() {
    let mut w = WorldState::new();
    // "ecs architecture" is contained in "Systems Design" and referenced later
    // from "graph renderer"; the newest incoming edge wins.
    let ecs = id_of(&w, "ecs architecture");
    w.select_node(ecs);
    w.zoom_to_parent();
    assert_eq!(label_of(&w, w.selected_node.unwrap()), "graph renderer");
}

#[test]
fn back_from_root_restores_trail_then_root() {
    let mut w = WorldState::new();
    let root = w.root_node.unwrap();
    let root_id = w.graph.get_node(root).unwrap().id;
    let code = id_of(&w, "Code");
    w.select_node(code);
    w.zoom_into_node(root_id);
    assert_eq!(w.focus_stack, vec![code]);
    let cmds = w.zoom_to_parent();
    assert_eq!(w.selected_node, Some(code));
    assert_eq!(cmds.len(), 2);
    assert!(w.focus_stack.is_empty());
    // nothing on the trail and no parent: back to the root overview
    let mut w2 = WorldState::new();
    let root2 = w2.root_node.unwrap();
    let root2_id = w2.graph.get_node(root2).unwrap().id;
    w2.select_node(root2_id);
    let cmds = w2.zoom_to_parent();
    assert_eq!(cmds, vec![ViewCommand::ZoomTo(ZoomTarget::Overview), ViewCommand::FocusOn(root2)]);
    assert_eq!(w2.selected_node, None);
}

#[test]
fn cycle_children_walks_siblings() {
    let mut w = WorldState::new();
    w.cycle_children(true);
    assert_eq!(label_of(&w, w.selected_node.unwrap()), "Bookmarks");
    w.cycle_children(true);
    assert_eq!(label_of(&w, w.selected_node.unwrap()), "Tasks");
    w.cycle_children(false);
    assert_eq!(label_of(&w, w.selected_node.unwrap()), "Bookmarks");
    w.cycle_children(false);
    assert_eq!(label_of(&w, w.selected_node.unwrap()), "Code");
    let root_id = w.graph.get_node(w.root_node.unwrap()).unwrap().id;
    w.select_node(root_id);
    w.cycle_children(false);
    assert_eq!(label_of(&w, w.selected_node.unwrap()), "Bookmarks");
}

#[test]
fn search_is_case_insensitive_and_ordered() {
    let mut w = WorldState::new();
    w.search("VOID");
    assert_eq!(w.search_query, "VOID");
    let labels: Vec<String> = w.search_results.iter().map(|&id| label_of(&w, id)).collect();
    assert_eq!(
        labels,
        vec![
            "VOID",
            "void",
            "void: add wasmtime plugin loader",
            "void: implement node search",
            "void: write integration tests",
        ]
    );
    w.search("");
    assert!(w.search_results.is_empty());
    w.search("no such label");
    assert!(w.search_results.is_empty());
}

#[test]
fn navigate_to_search_result_selects_it() {
    let mut w = WorldState::new();
    w.search("tmux");
    assert_eq!(w.search_results.len(), 2);
    let first = w.search_results[0];
    let cmds = w.navigate_to_search_result(0);
    assert_eq!(cmds.len(), 2);
    assert_eq!(w.selected_node, Some(first));
    assert!(w.navigate_to_search_result(5).is_empty());
    assert_eq!(w.selected_node, Some(first));
}

#[test]
fn selected_children_and_focus_root() {
    let mut w = WorldState::new();
    let album = id_of(&w, "Casiopea");
    w.select_node(album);
    let kids: Vec<String> = w.get_selected_children().iter().map(|&c| label_of(&w, c)).collect();
    assert_eq!(kids, vec!["Galactic Funk", "Asayake"]);
    let cmds = w.focus_root();
    assert_eq!(cmds.len(), 2);
    assert_eq!(w.selected_node, None);
    assert!(w.get_selected_children().is_empty());
    assert!(w.get_breadcrumb().is_empty());
}

#[test]
fn quit_keys() {
    let mut w = WorldState::new();
    let (quit, cmds) = handle_key_event(key(KeyCode::Char('q')), &mut w);
    assert!(quit);
    assert!(cmds.is_empty());
    let code = id_of(&w, "Code");
    w.select_node(code);
    let (quit, cmds) = handle_key_event(key(KeyCode::Esc), &mut w);
    assert!(!quit);
    assert_eq!(cmds, vec![ViewCommand::ZoomTo(ZoomTarget::Overview)]);
    assert_eq!(w.selected_node, None);
}

#[test]
fn zoom_and_pan_keys() {
    let mut w = WorldState::new();
    assert_eq!(handle_key_event(key(KeyCode::Char('+')), &mut w).1, vec![ViewCommand::ZoomIn]);
    assert_eq!(handle_key_event(key(KeyCode::Char('=')), &mut w).1, vec![ViewCommand::ZoomIn]);
    assert_eq!(handle_key_event(key(KeyCode::Char('-')), &mut w).1, vec![ViewCommand::ZoomOut]);
    assert_eq!(handle_key_event(key(KeyCode::Up), &mut w).1, vec![ViewCommand::PanUp]);
    assert_eq!(handle_key_event(key(KeyCode::Down), &mut w).1, vec![ViewCommand::PanDown]);
    assert!(handle_key_event(key(KeyCode::Other), &mut w).1.is_empty());
    assert!(handle_key_event(key(KeyCode::Char('f')), &mut w).1.is_empty());
    assert!(w.search_query.is_empty());
}

#[test]
fn search_mode_editing() {
    let mut w = WorldState::new();
    handle_key_event(key(KeyCode::Char('/')), &mut w);
    assert_eq!(w.search_query, "/");
    // each typed key searches for the text after the first character
    handle_key_event(key(KeyCode::Char('v')), &mut w);
    assert_eq!(w.search_query, "v");
    assert!(!w.search_results.is_empty());
    handle_key_event(key(KeyCode::Char('o')), &mut w);
    assert_eq!(w.search_query, "o");
    handle_key_event(key(KeyCode::Esc), &mut w);
    assert!(w.search_query.is_empty());
    assert!(w.search_results.is_empty());
    // ctrl-f enters search mode too; erasing the slash leaves it
    handle_key_event(KeyEvent { code: KeyCode::Char('f'), ctrl: true }, &mut w);
    assert_eq!(w.search_query, "/");
    let (quit, _) = handle_key_event(key(KeyCode::Backspace), &mut w);
    assert!(!quit);
    assert!(w.search_query.is_empty());
}

#[test]
fn search_mode_backspace_researches() {
    let mut w = WorldState::new();
    w.search_query = "xtmux".to_string();
    handle_key_event(key(KeyCode::Backspace), &mut w);
    assert_eq!(w.search_query, "tmu");
    assert_eq!(w.search_results.len(), 2);
}

#[test]
fn search_mode_enter_and_tab() {
    let mut w = WorldState::new();
    w.search_query = "/".to_string();
    handle_key_event(key(KeyCode::Char('x')), &mut w);
    // two labels hold an "x", in node order
    let results = w.search_results.clone();
    let labels: Vec<String> = results.iter().map(|&id| label_of(&w, id)).collect();
    assert_eq!(labels, vec!["tmux config", "fix tmux status bar colors"]);
    let (_, cmds) = handle_key_event(key(KeyCode::Tab), &mut w);
    assert_eq!(cmds.len(), 2);
    assert_eq!(w.selected_node, Some(results[0]));
    handle_key_event(key(KeyCode::Tab), &mut w);
    assert_eq!(w.selected_node, Some(results[1]));
    // past the last hit, Tab wraps to the first
    handle_key_event(key(KeyCode::Tab), &mut w);
    assert_eq!(w.selected_node, Some(results[0]));
    handle_key_event(key(KeyCode::Enter), &mut w);
    assert_eq!(w.selected_node, Some(results[0]));
    assert!(w.search_query.is_empty());
}

#[test]
fn browse_navigation_keys() {
    let mut w = WorldState::new();
    let (_, cmds) = handle_key_event(key(KeyCode::Right), &mut w);
    assert_eq!(cmds.len(), 1);
    assert_eq!(label_of(&w, w.selected_node.unwrap()), "Bookmarks");
    let (_, cmds) = handle_key_event(key(KeyCode::Enter), &mut w);
    assert_eq!(cmds.len(), 3);
    let (_, _) = handle_key_event(key(KeyCode::Backspace), &mut w);
    assert_eq!(label_of(&w, w.selected_node.unwrap()), "VOID");
    let (_, cmds) = handle_key_event(key(KeyCode::Home), &mut w);
    assert_eq!(cmds[0], ViewCommand::ZoomTo(ZoomTarget::Overview));
    assert_eq!(w.selected_node, None);
    assert_eq!(w.current_focus_depth(), 0);
    let (_, cmds) = handle_key_event(key(KeyCode::Backspace), &mut w);
    assert!(cmds.is_empty());
}

#[test]
fn mouse_events() {
    let mut w = WorldState::new();
    let code = id_of(&w, "Code");
    let down = MouseEvent { kind: MouseEventKind::Down(MouseButton::Left), column: 10, row: 4 };
    let cmds = handle_mouse_event(down, Some(code), &mut w);
    assert_eq!(cmds.len(), 2);
    assert_eq!(w.selected_node, Some(code));
    assert_eq!(w.last_mouse_pos, Some((10, 4)));
    let drag = MouseEvent { kind: MouseEventKind::Drag(MouseButton::Left), column: 7, row: 9 };
    assert_eq!(handle_mouse_event(drag, None, &mut w), vec![ViewCommand::Drag(-3, 5)]);
    assert_eq!(w.last_mouse_pos, Some((7, 9)));
    let up = MouseEvent { kind: MouseEventKind::Up(MouseButton::Left), column: 7, row: 9 };
    assert!(handle_mouse_event(up, None, &mut w).is_empty());
    assert_eq!(w.last_mouse_pos, None);
    let scroll = MouseEvent { kind: MouseEventKind::ScrollUp, column: 0, row: 0 };
    assert_eq!(handle_mouse_event(scroll, None, &mut w), vec![ViewCommand::ZoomIn]);
    let scroll = MouseEvent { kind: MouseEventKind::ScrollDown, column: 0, row: 0 };
    assert_eq!(handle_mouse_event(scroll, None, &mut w), vec![ViewCommand::ZoomOut]);
    let right = MouseEvent { kind: MouseEventKind::Down(MouseButton::Right), column: 0, row: 0 };
    assert_eq!(handle_mouse_event(right, None, &mut w).len(), 3);
    let miss = MouseEvent { kind: MouseEventKind::Down(MouseButton::Left), column: 1, row: 1 };
    assert_eq!(handle_mouse_event(miss, None, &mut w), vec![ViewCommand::ZoomTo(ZoomTarget::Overview)]);
    assert_eq!(w.selected_node, None);
}

#[test]
fn loop_steps_for_each_event() {
    let mut w = WorldState::new();
    assert_eq!(handle_input(None, None, &mut w), LoopStep::Stop);
    assert_eq!(handle_input(Some(InputEvent::Quit), None, &mut w), LoopStep::Stop);
    assert_eq!(handle_input(Some(InputEvent::Resize(80, 24)), None, &mut w), LoopStep::Resize(80, 24));
    assert_eq!(handle_input(Some(InputEvent::Tick), None, &mut w), LoopStep::Go(vec![]));
    let plus = Some(InputEvent::Key(key(KeyCode::Char('+'))));
    assert_eq!(handle_input(plus, None, &mut w), LoopStep::Go(vec![ViewCommand::ZoomIn]));
    let code = id_of(&w, "Code");
    let click = MouseEvent { kind: MouseEventKind::Down(MouseButton::Left), column: 3, row: 3 };
    let step = handle_input(Some(InputEvent::Mouse(click)), Some(code), &mut w);
    assert_eq!(step, LoopStep::Go(vec![ViewCommand::FocusOn(w.graph.node_by_id(code).unwrap()), ViewCommand::ZoomTo(ZoomTarget::Node)]));
    // with a selection, q deselects instead of quitting
    let q = Some(InputEvent::Key(key(KeyCode::Char('q'))));
    assert_eq!(handle_input(q, None, &mut w), LoopStep::Go(vec![ViewCommand::ZoomTo(ZoomTarget::Overview)]));
    assert_eq!(handle_input(q, None, &mut w), LoopStep::Stop);
    // in search mode q is typed into the query
    w.search_query = "/".to_string();
    assert_eq!(handle_input(q, None, &mut w), LoopStep::Go(vec![]));
    assert_eq!(w.search_query, "q");
}

#[test]
fn cycle_right_then_left_returns() {
    let mut w = WorldState::new();
    for label in ["ratatui docs", "Chandler Carruth - back to basics (cppcon)", "Bevy ECS patterns"] {
        let start = id_of(&w, label);
        w.select_node(start);
        w.cycle_children(true);
        assert_ne!(w.selected_node, Some(start));
        w.cycle_children(false);
        assert_eq!(w.selected_node, Some(start));
        w.cycle_children(false);
        w.cycle_children(true);
        assert_eq!(w.selected_node, Some(start));
    }
}

#[test]
fn cycle_back_follows_the_newest_parent() {
    // DJ Okawari's newest parent is Nujabes (a cross-reference), not Music,
    // so stepping back from it walks Nujabes's children instead
    let mut w = WorldState::new();
    w.select_node(id_of(&w, "Lopazz"));
    w.cycle_children(true);
    assert_eq!(label_of(&w, w.selected_node.unwrap()), "DJ Okawari");
    w.cycle_children(false);
    assert_eq!(label_of(&w, w.selected_node.unwrap()), "Modal Soul");
}

#[test]
fn every_parent_lists_its_child() {
    let w = WorldState::new();
    for idx in w.graph.node_indices() {
        if let Some(p) = w.graph.parent_of(idx) {
            assert!(w.graph.children_of(p).contains(&idx));
        }
    }
}

#[test]
fn default_world_is_the_demo_world() {
    let w = WorldState::default();
    assert_eq!(w.graph.node_count(), 80);
    assert_eq!(w.graph.edge_count(), 91);
    assert_eq!(w.graph.get_node(w.root_node.unwrap()).unwrap().label, "VOID");
    assert_eq!(w.selected_node, None);
}

#[test]
fn search_edits_that_need_a_one_byte_first_character() {
    assert!(search_edit_allowed(KeyCode::Char('a'), "/"));
    assert!(search_edit_allowed(KeyCode::Char('a'), ""));
    assert!(!search_edit_allowed(KeyCode::Char('a'), "\u{e9}"));
    // erasing leaves "\u{e9}" (two bytes), which is then sliced
    assert!(!search_edit_allowed(KeyCode::Backspace, "\u{e9}a"));
    // erasing leaves nothing, which is not sliced
    assert!(search_edit_allowed(KeyCode::Backspace, "\u{e9}"));
    assert!(search_edit_allowed(KeyCode::Backspace, "/ab"));
    assert!(search_edit_allowed(KeyCode::Esc, "\u{e9}"));
}

#[test]
fn demo_world_is_a_containment_tree_with_cross_links() {
    let w = WorldState::new();
    let root = w.root_node.unwrap();
    let mut contains = 0;
    let mut refs = Vec::new();
    let mut contained_in: HashMap<usize, Vec<usize>> = HashMap::new();
    for idx in w.graph.node_indices() {
        for (target, edge) in w.graph.connected_to(idx) {
            match edge.relation {
                Relation::Contains => {
                    contains += 1;
                    contained_in.entry(target).or_default().push(idx);
                }
                Relation::References => refs.push((label_of_idx(&w, idx), label_of_idx(&w, target))),
                other => panic!("unexpected relation {:?}", other),
            }
        }
    }
    assert_eq!(contains, 79);
    assert_eq!(refs.len(), 12);
    assert!(refs.contains(&("Nujabes".to_string(), "DJ Okawari".to_string())));
    assert!(refs.contains(&("graph renderer".to_string(), "ecs architecture".to_string())));
    // every node but the root is contained in exactly one node
    assert!(!contained_in.contains_key(&root));
    for idx in w.graph.node_indices() {
        if idx != root {
            assert_eq!(contained_in[&idx].len(), 1);
        }
    }
    let notes = w.graph.node_by_id(id_of(&w, "Notes")).unwrap();
    assert_eq!(contained_in[&notes], vec![root]);
}

fn label_of_idx(w: &WorldState, idx: usize) -> String {
    w.graph.get_node(idx).unwrap().label.clone()
}
