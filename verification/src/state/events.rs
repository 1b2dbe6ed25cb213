//! One turn of the application loop: what an event from the terminal does to
//! the navigation state, and what the loop does next.
use vstd::prelude::*;
use crate::state::input::{
    InputEvent, browse_key_outcome, handle_key_event, handle_mouse_event, mouse_outcome,
    search_edit_ok, search_key_outcome,
};
use crate::state::world::{ViewCommand, WorldState};

verus! {

/// What the loop does after an event.
#[derive(Debug, Clone, PartialEq, Eq)]
pub enum LoopStep {
    /// Carry out this camera work and go on.
    Go(Vec<ViewCommand>),
    /// Resize the terminal to this many columns and rows and go on.
    Resize(u16, u16),
    /// Leave the loop.
    Stop,
}

/// The camera work of a step (none for a resize or a stop).
pub open spec fn step_commands(s: LoopStep) -> Seq<ViewCommand> {
    match s {
        LoopStep::Go(cmds) => cmds@,
        _ => Seq::empty(),
    }
}

/// What handling `event` does, from `a` to `b`, with step `s`. No event (the
/// terminal's event stream has ended) and a quit request stop the loop; a key
/// stops it when the key says to quit.
pub open spec fn input_outcome(
    a: WorldState,
    b: WorldState,
    event: Option<InputEvent>,
    hit: Option<u128>,
    s: LoopStep,
) -> bool {
    match event {
        None => b.unchanged(&a) && s is Stop,
        Some(InputEvent::Quit) => b.unchanged(&a) && s is Stop,
        Some(InputEvent::Tick) => b.unchanged(&a) && s is Go && step_commands(s).len() == 0,
        Some(InputEvent::Resize(w, h)) => b.unchanged(&a) && s == LoopStep::Resize(w, h),
        Some(InputEvent::Key(key)) => {
            &&& !(s is Resize)
            &&& if a.search_query@.len() > 0 {
                &&& !(s is Stop)
                &&& search_key_outcome(a, b, key, step_commands(s))
            } else {
                browse_key_outcome(a, b, key, s is Stop, step_commands(s))
            }
        },
        Some(InputEvent::Mouse(mouse)) => {
            &&& s is Go
            &&& mouse_outcome(a, b, mouse, hit, step_commands(s))
        },
    }
}

/// Handles what the terminal's event stream gave (`None` once it has ended);
/// `hit` is the node under a left click, if any.
pub fn handle_input(event: Option<InputEvent>, hit: Option<u128>, state: &mut WorldState) -> (s: LoopStep)
    requires
        old(state).wf(),
        event matches Some(InputEvent::Key(key)) ==> (old(state).search_query@.len() > 0
            ==> search_edit_ok(key.code, old(state).search_query@)),
    ensures
        final(state).wf(),
        input_outcome(*old(state), *final(state), event, hit, s),
{
    match event {
        None => LoopStep::Stop,
        Some(InputEvent::Quit) => LoopStep::Stop,
        Some(InputEvent::Tick) => LoopStep::Go(Vec::new()),
        Some(InputEvent::Resize(w, h)) => LoopStep::Resize(w, h),
        Some(InputEvent::Key(key)) => {
            let (quit, cmds) = handle_key_event(key, state);
            if quit {
                proof {
                    assert(cmds@.len() == 0);
                }
                LoopStep::Stop
            } else {
                LoopStep::Go(cmds)
            }
        },
        Some(InputEvent::Mouse(mouse)) => LoopStep::Go(handle_mouse_event(mouse, hit, state)),
    }
}

} // verus!
