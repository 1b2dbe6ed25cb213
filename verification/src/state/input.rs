//! Keyboard and mouse handling: what each key or mouse event does to the
//! world's navigation state, and which camera work it asks for.
use vstd::prelude::*;
use crate::graph::types::NodeType;
use crate::state::world::{
    ViewCommand, WorldState, ZoomTarget, root_commands, search_hits, select_commands, zoom_into_outcome,
    zoom_to_parent_outcome, cycle_outcome,
};
use crate::seqs::{first_index, lemma_first_index_absent, lemma_first_index_found};
use crate::text::{
    at_most_one_byte, byte_len, is_one_byte, lemma_byte_len_first, string_clear, string_pop,
    string_push,
};

verus! {

/// A key, as the terminal reports it.
#[derive(Debug, Clone, Copy, PartialEq, Eq, Structural)]
pub enum KeyCode {
    Char(char),
    Esc,
    Enter,
    Backspace,
    Tab,
    Up,
    Down,
    Left,
    Right,
    Home,
    /// Any other key; no binding uses it.
    Other,
}

/// A key press, with whether Control was held.
#[derive(Debug, Clone, Copy, PartialEq, Eq, Structural)]
pub struct KeyEvent {
    pub code: KeyCode,
    pub ctrl: bool,
}

#[derive(Debug, Clone, Copy, PartialEq, Eq, Structural)]
pub enum MouseButton {
    Left,
    Right,
    Middle,
}

#[derive(Debug, Clone, Copy, PartialEq, Eq, Structural)]
pub enum MouseEventKind {
    Down(MouseButton),
    Up(MouseButton),
    Drag(MouseButton),
    Moved,
    ScrollDown,
    ScrollUp,
    ScrollLeft,
    ScrollRight,
}

/// A mouse event at a terminal cell.
#[derive(Debug, Clone, Copy, PartialEq, Eq, Structural)]
pub struct MouseEvent {
    pub kind: MouseEventKind,
    pub column: u16,
    pub row: u16,
}

/// What the terminal hands the application loop.
#[derive(Debug, Clone, Copy, PartialEq, Eq, Structural)]
pub enum InputEvent {
    Key(KeyEvent),
    Mouse(MouseEvent),
    Resize(u16, u16),
    Tick,
    Quit,
}

/// Editing the query in search mode takes its text after the first
/// character by a byte slice, which needs that character to be one byte long:
/// typing a character needs it of the current query, erasing one needs it
/// when what is left is longer than one byte.
pub open spec fn search_edit_ok(code: KeyCode, query: Seq<char>) -> bool {
    match code {
        KeyCode::Char(_) => query.len() > 0 ==> is_one_byte(query[0]),
        KeyCode::Backspace => (query.len() > 0 && byte_len(query.drop_last()) > 1) ==> is_one_byte(
            query[0],
        ),
        _ => true,
    }
}

/// Whether `search_edit_ok` holds of a key and a query: what a caller tests
/// before handing a key to `handle_key_event` in search mode.
pub fn search_edit_allowed(code: KeyCode, query: &str) -> (r: bool)
    ensures
        r == search_edit_ok(code, query@),
{
    let n = query.unicode_len();
    let first_one_byte = n == 0 || (query.get_char(0) as u32) < 0x80;
    match code {
        KeyCode::Char(_) => first_one_byte,
        KeyCode::Backspace => {
            proof {
                if n >= 1 && !is_one_byte(query@[0]) {
                    let rest = query@.drop_last();
                    if n >= 2 {
                        assert(rest[0] == query@[0]);
                        lemma_byte_len_first(rest);
                    } else {
                        assert(rest =~= Seq::<char>::empty());
                        assert(vstd::utf8::encode_utf8(rest) =~= Seq::<u8>::empty());
                    }
                }
            }
            first_one_byte || n < 2
        },
        _ => true,
    }
}

/// What a key does in search mode (the query is not empty), from `a` to `b`.
pub open spec fn search_key_outcome(a: WorldState, b: WorldState, key: KeyEvent, cmds: Seq<
    ViewCommand,
>) -> bool {
    let q = a.search_query@;
    let others_same = {
        &&& b.graph == a.graph
        &&& b.theme == a.theme
        &&& b.hovered_node == a.hovered_node
        &&& b.root_node == a.root_node
        &&& b.last_mouse_pos == a.last_mouse_pos
        &&& b.same_trail(&a)
    };
    match key.code {
        KeyCode::Esc => {
            &&& others_same
            &&& b.selected_node == a.selected_node
            &&& b.search_query@.len() == 0
            &&& b.search_results@.len() == 0
            &&& cmds.len() == 0
        },
        KeyCode::Enter => {
            &&& others_same
            &&& b.search_query@.len() == 0
            &&& b.search_results@ == a.search_results@
            &&& if a.search_results@.len() > 0 {
                b.selected_node == Some(a.search_results@[0]) && cmds == select_commands(
                    a.graph,
                    a.search_results@[0],
                )
            } else {
                b.selected_node == a.selected_node && cmds.len() == 0
            }
        },
        KeyCode::Tab => {
            &&& others_same
            &&& b.search_query@ == a.search_query@
            &&& b.search_results@ == a.search_results@
            &&& if a.search_results@.len() > 0 {
                let n = a.search_results@.len() as int;
                let next = match a.selected_node {
                    Some(sel) => match first_index(a.search_results@, sel) {
                        Some(i) => (i + 1) % n,
                        None => 0,
                    },
                    None => 0,
                };
                b.selected_node == Some(a.search_results@[next]) && cmds == select_commands(
                    a.graph,
                    a.search_results@[next],
                )
            } else {
                b.selected_node == a.selected_node && cmds.len() == 0
            }
        },
        KeyCode::Backspace => {
            let rest = q.drop_last();
            &&& others_same
            &&& b.selected_node == a.selected_node
            &&& cmds.len() == 0
            &&& if byte_len(rest) <= 1 {
                b.search_query@.len() == 0 && b.search_results@.len() == 0
            } else {
                b.search_query@ == rest.drop_first() && b.search_results@ == search_hits(
                    a.graph,
                    rest.drop_first(),
                )
            }
        },
        KeyCode::Char(c) => {
            let typed = q.push(c).drop_first();
            &&& others_same
            &&& b.selected_node == a.selected_node
            &&& cmds.len() == 0
            &&& b.search_query@ == typed
            &&& b.search_results@ == search_hits(a.graph, typed)
        },
        _ => b.unchanged(&a) && cmds.len() == 0,
    }
}

/// What a key does outside search mode, from `a` to `b`, with `quit` telling
/// whether the application should stop.
pub open spec fn browse_key_outcome(
    a: WorldState,
    b: WorldState,
    key: KeyEvent,
    quit: bool,
    cmds: Seq<ViewCommand>,
) -> bool {
    let nothing = b.unchanged(&a) && !quit;
    let starts_search = {
        &&& b.same_content_but_query(&a)
        &&& b.same_trail(&a)
        &&& b.selected_node == a.selected_node
        &&& b.search_query@ == seq!['/']
        &&& !quit
        &&& cmds.len() == 0
    };
    match key.code {
        KeyCode::Char('q') | KeyCode::Esc => if a.selected_node is Some {
            &&& b.same_content(&a)
            &&& b.same_trail(&a)
            &&& b.selected_node is None
            &&& !quit
            &&& cmds == seq![ViewCommand::ZoomTo(ZoomTarget::Overview)]
        } else {
            b.unchanged(&a) && quit && cmds.len() == 0
        },
        KeyCode::Char('+') | KeyCode::Char('=') => nothing && cmds == seq![ViewCommand::ZoomIn],
        KeyCode::Char('-') => nothing && cmds == seq![ViewCommand::ZoomOut],
        KeyCode::Up => nothing && cmds == seq![ViewCommand::PanUp],
        KeyCode::Down => nothing && cmds == seq![ViewCommand::PanDown],
        KeyCode::Left => {
            &&& b.same_content(&a)
            &&& b.same_trail(&a)
            &&& !quit
            &&& cycle_outcome(a, false, b.selected_node, cmds)
        },
        KeyCode::Right => {
            &&& b.same_content(&a)
            &&& b.same_trail(&a)
            &&& !quit
            &&& cycle_outcome(a, true, b.selected_node, cmds)
        },
        KeyCode::Home => {
            &&& b.same_content(&a)
            &&& b.selected_node is None
            &&& b.focus_stack@.len() == 0
            &&& b.expanded_nodes@ == a.expanded_nodes@
            &&& b.animating_nodes@ == a.animating_nodes@
            &&& !quit
            &&& cmds == root_commands(a)
        },
        KeyCode::Enter => !quit && match a.selected_node {
            Some(id) => zoom_into_outcome(a, b, id, cmds),
            None => b.unchanged(&a) && cmds.len() == 0,
        },
        KeyCode::Backspace => !quit && if a.selected_node is Some {
            zoom_to_parent_outcome(a, b, cmds)
        } else {
            b.unchanged(&a) && cmds.len() == 0
        },
        KeyCode::Char('/') => starts_search,
        KeyCode::Char('f') => if key.ctrl {
            starts_search
        } else {
            nothing && cmds.len() == 0
        },
        _ => nothing && cmds.len() == 0,
    }
}

impl WorldState {
    /// Everything but the query is the same (the results too).
    pub open spec fn same_content_but_query(&self, other: &WorldState) -> bool {
        &&& self.graph == other.graph
        &&& self.theme == other.theme
        &&& self.hovered_node == other.hovered_node
        &&& self.search_results@ == other.search_results@
        &&& self.root_node == other.root_node
        &&& self.last_mouse_pos == other.last_mouse_pos
    }
}

/// Handles a key press and tells whether the application should quit. A
/// non-empty query means search mode, where keys edit the query instead.
pub fn handle_key_event(key: KeyEvent, state: &mut WorldState) -> (r: (bool, Vec<ViewCommand>))
    requires
        old(state).wf(),
        old(state).search_query@.len() > 0 ==> search_edit_ok(key.code, old(state).search_query@),
    ensures
        final(state).wf(),
        old(state).search_query@.len() > 0 ==> !r.0 && search_key_outcome(
            *old(state),
            *final(state),
            key,
            r.1@,
        ),
        old(state).search_query@.len() == 0 ==> browse_key_outcome(
            *old(state),
            *final(state),
            key,
            r.0,
            r.1@,
        ),
{
    if !state.search_query.as_str().is_empty() {
        let cmds = handle_search_input(key, state);
        return (false, cmds);
    }
    match key.code {
        KeyCode::Char('q') | KeyCode::Esc => {
            if state.selected_node.is_some() {
                let cmds = state.deselect();
                (false, cmds)
            } else {
                (true, Vec::new())
            }
        },
        KeyCode::Char('+') | KeyCode::Char('=') => (false, one_command(ViewCommand::ZoomIn)),
        KeyCode::Char('-') => (false, one_command(ViewCommand::ZoomOut)),
        KeyCode::Up => (false, one_command(ViewCommand::PanUp)),
        KeyCode::Down => (false, one_command(ViewCommand::PanDown)),
        KeyCode::Left => (false, state.cycle_children(false)),
        KeyCode::Right => (false, state.cycle_children(true)),
        KeyCode::Home => (false, state.focus_root()),
        KeyCode::Enter => (false, state.zoom_into_selected()),
        KeyCode::Backspace => {
            if state.selected_node.is_some() {
                (false, state.zoom_to_parent())
            } else {
                (false, Vec::new())
            }
        },
        KeyCode::Char('/') => {
            string_clear(&mut state.search_query);
            string_push(&mut state.search_query, '/');
            (false, Vec::new())
        },
        KeyCode::Char('f') => {
            if key.ctrl {
                string_clear(&mut state.search_query);
                string_push(&mut state.search_query, '/');
            }
            (false, Vec::new())
        },
        _ => (false, Vec::new()),
    }
}

/// Handles a key in search mode.
fn handle_search_input(key: KeyEvent, state: &mut WorldState) -> (cmds: Vec<ViewCommand>)
    requires
        old(state).wf(),
        old(state).search_query@.len() > 0,
        search_edit_ok(key.code, old(state).search_query@),
    ensures
        final(state).wf(),
        search_key_outcome(*old(state), *final(state), key, cmds@),
{
    match key.code {
        KeyCode::Esc => {
            string_clear(&mut state.search_query);
            state.search_results.clear();
            Vec::new()
        },
        KeyCode::Enter => {
            let mut cmds = Vec::new();
            if state.search_results.len() > 0 {
                cmds = state.navigate_to_search_result(0);
            }
            string_clear(&mut state.search_query);
            cmds
        },
        KeyCode::Tab => {
            if state.search_results.len() > 0 {
                let next = if let Some(sel) = state.selected_node {
                    match position_of(&state.search_results, sel) {
                        Some(i) => {
                            if i + 1 == state.search_results.len() {
                                0
                            } else {
                                i + 1
                            }
                        },
                        None => 0,
                    }
                } else {
                    0
                };
                proof {
                    let n = old(state).search_results@.len() as int;
                    if let Some(sel) = old(state).selected_node {
                        if let Some(i) = first_index(old(state).search_results@, sel) {
                            assert(next == (i + 1) % n) by (nonlinear_arith)
                                requires
                                    0 <= i < n,
                                    next == (if i + 1 == n { 0 } else { i + 1 }),
                            ;
                        }
                    }
                }
                state.navigate_to_search_result(next)
            } else {
                Vec::new()
            }
        },
        KeyCode::Backspace => {
            let ghost q = state.search_query@;
            string_pop(&mut state.search_query);
            if at_most_one_byte(state.search_query.as_str()) {
                string_clear(&mut state.search_query);
                state.search_results.clear();
            } else {
                let query = tail_after_first(state.search_query.as_str());
                state.search(query.as_str());
            }
            Vec::new()
        },
        KeyCode::Char(c) => {
            string_push(&mut state.search_query, c);
            let query = tail_after_first(state.search_query.as_str());
            state.search(query.as_str());
            Vec::new()
        },
        _ => Vec::new(),
    }
}

/// A list of one command.
fn one_command(c: ViewCommand) -> (v: Vec<ViewCommand>)
    ensures
        v@ == seq![c],
{
    let mut v = Vec::new();
    v.push(c);
    v
}

/// The text after the first character, which takes one byte: what the byte
/// slice `&s[1..]` gives.
fn tail_after_first(s: &str) -> (r: String)
    requires
        s@.len() > 0,
        is_one_byte(s@[0]),
    ensures
        r@ == s@.drop_first(),
{
    let n = s.unicode_len();
    let t = s.substring_char(1, n);
    proof {
        assert(t@ =~= s@.drop_first());
    }
    t.to_string()
}

/// The first place of `id` among `ids`, if any.
fn position_of(ids: &Vec<u128>, id: u128) -> (r: Option<usize>)
    ensures
        match first_index(ids@, id) {
            Some(k) => r == Some(k as usize),
            None => r is None,
        },
        r matches Some(k) ==> k < ids@.len(),
        first_index(ids@, id) matches Some(k) ==> 0 <= k < ids@.len(),
{
    let mut k: usize = 0;
    while k < ids.len()
        invariant
            0 <= k <= ids@.len(),
            forall|i: int| 0 <= i < k ==> ids@[i] != id,
        decreases ids@.len() - k,
    {
        if ids[k] == id {
            proof {
                lemma_first_index_found(ids@, id, k as int);
            }
            return Some(k);
        }
        k = k + 1;
    }
    proof {
        lemma_first_index_absent(ids@, id);
    }
    None
}

/// What a mouse event does, from `a` to `b`. `hit` is the node that a left
/// click lands on: the nearest node within two cells of the clicked point,
/// which the presentation layer finds from the node positions.
pub open spec fn mouse_outcome(
    a: WorldState,
    b: WorldState,
    mouse: MouseEvent,
    hit: Option<u128>,
    cmds: Seq<ViewCommand>,
) -> bool {
    let here = Some((mouse.column, mouse.row));
    let same_but_mouse = {
        &&& b.graph == a.graph
        &&& b.theme == a.theme
        &&& b.hovered_node == a.hovered_node
        &&& b.search_query@ == a.search_query@
        &&& b.search_results@ == a.search_results@
        &&& b.root_node == a.root_node
    };
    match mouse.kind {
        MouseEventKind::Down(MouseButton::Left) => {
            &&& same_but_mouse
            &&& b.same_trail(&a)
            &&& b.last_mouse_pos == here
            &&& match hit {
                Some(id) => b.selected_node == Some(id) && cmds == select_commands(a.graph, id),
                None => b.selected_node is None && cmds == seq![
                    ViewCommand::ZoomTo(ZoomTarget::Overview),
                ],
            }
        },
        MouseEventKind::Down(MouseButton::Right) => match a.selected_node {
            Some(id) => zoom_into_outcome(a, b, id, cmds),
            None => b.unchanged(&a) && cmds.len() == 0,
        },
        MouseEventKind::Drag(MouseButton::Left) => {
            &&& same_but_mouse
            &&& b.same_trail(&a)
            &&& b.selected_node == a.selected_node
            &&& b.last_mouse_pos == here
            &&& cmds == match a.last_mouse_pos {
                Some(last) => seq![
                    ViewCommand::Drag(
                        (mouse.column as int - last.0 as int) as i32,
                        (mouse.row as int - last.1 as int) as i32,
                    ),
                ],
                None => Seq::empty(),
            }
        },
        MouseEventKind::Up(MouseButton::Left) => {
            &&& same_but_mouse
            &&& b.same_trail(&a)
            &&& b.selected_node == a.selected_node
            &&& b.last_mouse_pos is None
            &&& cmds.len() == 0
        },
        MouseEventKind::ScrollUp => b.unchanged(&a) && cmds == seq![ViewCommand::ZoomIn],
        MouseEventKind::ScrollDown => b.unchanged(&a) && cmds == seq![ViewCommand::ZoomOut],
        _ => b.unchanged(&a) && cmds.len() == 0,
    }
}

/// Handles a mouse event; `hit` is the node under a left click, if any.
pub fn handle_mouse_event(mouse: MouseEvent, hit: Option<u128>, state: &mut WorldState) -> (cmds: Vec<
    ViewCommand,
>)
    requires
        old(state).wf(),
    ensures
        final(state).wf(),
        mouse_outcome(*old(state), *final(state), mouse, hit, cmds@),
{
    match mouse.kind {
        MouseEventKind::Down(MouseButton::Left) => {
            state.last_mouse_pos = Some((mouse.column, mouse.row));
            if let Some(id) = hit {
                state.select_node(id)
            } else {
                state.deselect()
            }
        },
        MouseEventKind::Down(MouseButton::Right) => state.zoom_into_selected(),
        MouseEventKind::Drag(MouseButton::Left) => {
            let current = (mouse.column, mouse.row);
            let mut cmds = Vec::new();
            if let Some(last) = state.last_mouse_pos {
                let dx = current.0 as i32 - last.0 as i32;
                let dy = current.1 as i32 - last.1 as i32;
                cmds.push(ViewCommand::Drag(dx, dy));
            }
            state.last_mouse_pos = Some(current);
            cmds
        },
        MouseEventKind::Up(MouseButton::Left) => {
            state.last_mouse_pos = None;
            Vec::new()
        },
        MouseEventKind::ScrollUp => one_command(ViewCommand::ZoomIn),
        MouseEventKind::ScrollDown => one_command(ViewCommand::ZoomOut),
        _ => Vec::new(),
    }
}

} // verus!
