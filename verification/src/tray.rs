//! What the menu-bar icon does with a click and with a menu choice.
use vstd::prelude::*;

use crate::text::owned;

verus! {

/// What to do with the popover window after a tray icon event.
#[derive(Debug, Clone, Copy, PartialEq, Eq, Structural)]
pub enum TrayAction {
    /// Not a released left click: leave the window as it is.
    Ignore,
    /// A left click while the window is shown: hide it.
    HideWindow,
    /// A left click while the window is hidden: place it below the icon,
    /// show it and focus it.
    ShowWindow,
}

/// A released left click toggles the window; every other event is ignored
/// (the right button opens the menu).
pub open spec fn tray_action(left_button: bool, released: bool, window_visible: bool) -> TrayAction {
    if !(left_button && released) {
        TrayAction::Ignore
    } else if window_visible {
        TrayAction::HideWindow
    } else {
        TrayAction::ShowWindow
    }
}

/// The action for a tray icon event.
pub fn tray_click_action(left_button: bool, released: bool, window_visible: bool) -> (r: TrayAction)
    ensures
        r == tray_action(left_button, released, window_visible),
{
    if !(left_button && released) {
        TrayAction::Ignore
    } else if window_visible {
        TrayAction::HideWindow
    } else {
        TrayAction::ShowWindow
    }
}

/// Whether the menu item with this id ends the app: only `quit` does.
pub fn menu_quits(id: &str) -> (r: bool)
    ensures
        r == (id@ == "quit"@),
{
    owned(id) == owned("quit")
}

} // verus!
