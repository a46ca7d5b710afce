//! The tray daemon's decisions: what a tray menu item does, how the
//! start-at-login toggle flips, and which clicks reveal the window.

use vstd::prelude::*;
use crate::text::same_text;

verus! {

/// What a tray menu item asks for.
#[derive(PartialEq, Eq, Structural)]
pub enum MenuAction {
    Show,
    Quit,
    ToggleAutostart,
    Ignore,
}

/// The action for a menu item id.
pub fn menu_action(id: &str) -> (a: MenuAction)
    ensures
        a == (if id@ == "show"@ {
            MenuAction::Show
        } else if id@ == "quit"@ {
            MenuAction::Quit
        } else if id@ == "autostart"@ {
            MenuAction::ToggleAutostart
        } else {
            MenuAction::Ignore
        }),
{
    if same_text(id, "show") {
        MenuAction::Show
    } else if same_text(id, "quit") {
        MenuAction::Quit
    } else if same_text(id, "autostart") {
        MenuAction::ToggleAutostart
    } else {
        MenuAction::Ignore
    }
}

/// The start-at-login toggle: disable when enabled (or when the state
/// cannot be read as disabled), enable otherwise.
pub fn autostart_should_enable(currently_enabled: bool) -> (enable: bool)
    ensures
        enable == !currently_enabled,
{
    !currently_enabled
}

/// A tray click reveals the main window when it is the left button being
/// released.
pub fn click_reveals(left_button: bool, released: bool) -> (r: bool)
    ensures
        r == (left_button && released),
{
    left_button && released
}

} // verus!
