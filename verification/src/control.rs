use vstd::prelude::*;
use crate::input::Action;
use crate::state::{
    AppState, StateV, children_spec, clamp_spec, up_spec, down_spec, page_up_spec, page_down_spec, top_spec,
    bottom_spec, enter_spec, parent_spec,
};

verus! {

/// The rows that Page Up and Page Down move.
pub const PAGE_ROWS: usize = 10;

/// What the terminal loop does after a key press.
#[derive(Debug, Clone, Copy, PartialEq, Eq, Structural)]
pub enum LoopStep {
    /// Keep running.
    Continue,
    /// Scan the tree again, put it in place of the root and pull the selection back.
    Refresh,
    /// Stop.
    Quit,
}

/// The navigation state after `a`, before the selection is pulled back.
pub open spec fn action_step(v: StateV, a: Action) -> StateV {
    match a {
        Action::Up => up_spec(v),
        Action::Down => down_spec(v),
        Action::PageUp => page_up_spec(v, PAGE_ROWS as int),
        Action::PageDown => page_down_spec(v, PAGE_ROWS as int),
        Action::Top => top_spec(v),
        Action::Bottom => bottom_spec(v),
        Action::Enter => enter_spec(v),
        Action::Back => parent_spec(v),
        _ => v,
    }
}

/// Applies the action of a key press in the terminal interface: navigation actions move and
/// then pull the selection back onto the list; Refresh and Quit change nothing and are
/// reported to the loop.
pub fn handle_action(state: &mut AppState, action: Action) -> (step: LoopStep)
    requires
        children_spec(old(state)@).len() > 0 && action == Action::Down ==> old(state).selected_index < usize::MAX,
        children_spec(old(state)@).len() > 0 && action == Action::PageDown ==> old(state).selected_index + PAGE_ROWS
            <= usize::MAX,
    ensures
        step == (match action {
            Action::Refresh => LoopStep::Refresh,
            Action::Quit => LoopStep::Quit,
            _ => LoopStep::Continue,
        }),
        action == Action::Refresh || action == Action::Quit ==> final(state)@ == old(state)@,
        action != Action::Refresh && action != Action::Quit ==> final(state)@ == clamp_spec(
            action_step(old(state)@, action),
        ),
{
    match action {
        Action::Up => state.move_up(),
        Action::Down => state.move_down(),
        Action::PageUp => state.move_page_up(PAGE_ROWS),
        Action::PageDown => state.move_page_down(PAGE_ROWS),
        Action::Top => state.move_top(),
        Action::Bottom => state.move_bottom(),
        Action::Enter => state.enter_selected(),
        Action::Back => state.go_parent(),
        Action::Refresh => {
            return LoopStep::Refresh;
        },
        Action::Quit => {
            return LoopStep::Quit;
        },
        Action::Nothing => {},
    }
    state.clamp_selection();
    LoopStep::Continue
}

} // verus!
