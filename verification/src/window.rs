//! Window-control command model.
//!
//! The three window commands (minimize, toggle-maximize, close) are
//! fire-and-forget requests to the host window manager. The decision
//! each command makes is modelled here over an explicit window state,
//! so the toggle logic can be verified; the host adapter performs the
//! chosen action and swallows transient failures, as the commands'
//! best-effort contract requires.

use vstd::prelude::*;

verus! {

/// The window state a command decides over: whether the window is still
/// open, and whether it is currently minimized or maximized.
#[derive(Clone, Copy, PartialEq, Eq, Structural, Debug)]
pub struct WindowState {
    pub open: bool,
    pub minimized: bool,
    pub maximized: bool,
}

/// The single request a window command hands to the window manager.
#[derive(Clone, Copy, PartialEq, Eq, Structural, Debug)]
pub enum WindowAction {
    Minimize,
    Maximize,
    Unmaximize,
    Close,
}

/// What the toggle-maximize command asks for, given the window manager's
/// answer to the maximized query: unmaximize only on a definite `true`;
/// on `false` or a failed query, maximize.
pub open spec fn spec_toggle_decision(is_maximized: Option<bool>) -> WindowAction {
    if is_maximized == Some(true) {
        WindowAction::Unmaximize
    } else {
        WindowAction::Maximize
    }
}

/// Effect of one window-manager action on the modelled window state.
pub open spec fn spec_apply_action(w: WindowState, a: WindowAction) -> WindowState {
    match a {
        WindowAction::Minimize => WindowState { minimized: true, ..w },
        WindowAction::Maximize => WindowState { maximized: true, ..w },
        WindowAction::Unmaximize => WindowState { maximized: false, ..w },
        WindowAction::Close => WindowState { open: false, ..w },
    }
}

/// Decision of the toggle-maximize command: the action to request for a
/// given (possibly unknown) maximized state.
pub fn toggle_maximize_action(is_maximized: Option<bool>) -> (a: WindowAction)
    ensures
        a == spec_toggle_decision(is_maximized),
{
    match is_maximized {
        Some(true) => WindowAction::Unmaximize,
        _ => WindowAction::Maximize,
    }
}

/// The minimize command applied to the window model.
pub fn minimize(w: &mut WindowState)
    ensures
        *final(w) == (WindowState { minimized: true, ..*old(w) }),
{
    w.minimized = true;
}

/// The toggle-maximize command applied to the window model: queries the
/// modelled maximized state and applies the decided action.
pub fn toggle_maximize(w: &mut WindowState)
    ensures
        *final(w) == spec_apply_action(*old(w), spec_toggle_decision(Some(old(w).maximized))),
        final(w).maximized == !old(w).maximized,
        final(w).minimized == old(w).minimized,
        final(w).open == old(w).open,
{
    let a = toggle_maximize_action(Some(w.maximized));
    match a {
        WindowAction::Maximize => w.maximized = true,
        WindowAction::Unmaximize => w.maximized = false,
        _ => (),
    }
}

/// The close command applied to the window model.
pub fn close(w: &mut WindowState)
    ensures
        *final(w) == (WindowState { open: false, ..*old(w) }),
{
    w.open = false;
}

/// Toggling maximize inverts the maximized state, and toggling twice
/// restores it: a maximized window becomes non-maximized, and a second
/// toggle makes it maximized again.
pub proof fn lemma_toggle_maximize_roundtrip(w: WindowState)
    ensures
        ({
            let w1 = spec_apply_action(w, spec_toggle_decision(Some(w.maximized)));
            let w2 = spec_apply_action(w1, spec_toggle_decision(Some(w1.maximized)));
            w1.maximized == !w.maximized && w2 == w
        }),
{
}

} // verus!
