//! The panel's small decisions: which text it works on, when a blur hides it,
//! what the hotkey does, and what each menu-bar item means.

use vstd::prelude::*;

use crate::text::same_text;

verus! {

/// Hands the panel its text: a non-empty `text` replaces what the panel holds,
/// an empty one keeps it. Returns the text the panel now holds.
pub fn take_panel_text(held: &mut String, text: String) -> (now: String)
    ensures
        final(held)@ == (if text@.len() > 0 {
            text@
        } else {
            old(held)@
        }),
        now@ == final(held)@,
{
    if !text.as_str().is_empty() {
        *held = text;
    }
    held.clone()
}

/// A blur this soon after the panel was shown is the window system reporting
/// the show itself, not the user clicking away.
pub const BLUR_GRACE_NS: u128 = 600_000_000;

/// Whether losing focus `since_shown_ns` nanoseconds after the panel was shown
/// hides it: only once the grace period has passed.
pub fn blur_hides(since_shown_ns: u128) -> (b: bool)
    ensures
        b == (since_shown_ns > BLUR_GRACE_NS),
{
    since_shown_ns > BLUR_GRACE_NS
}

/// What the global hotkey does.
#[derive(PartialEq, Eq, Structural)]
pub enum SummonAction {
    /// The panel is up: put it away.
    HidePanel,
    /// Grab the selection right now and show the panel with it.
    CaptureAndShow,
    /// The watcher is not running yet: nothing to do.
    Nothing,
}

/// Decides what the global hotkey does: it toggles a visible panel away, and
/// otherwise captures the selection, whether or not the watcher noticed it.
pub fn summon_action(panel_visible: bool, watcher_running: bool) -> (a: SummonAction)
    ensures
        a == (if panel_visible {
            SummonAction::HidePanel
        } else if watcher_running {
            SummonAction::CaptureAndShow
        } else {
            SummonAction::Nothing
        }),
{
    if panel_visible {
        SummonAction::HidePanel
    } else if watcher_running {
        SummonAction::CaptureAndShow
    } else {
        SummonAction::Nothing
    }
}

/// The menu-bar items.
#[derive(PartialEq, Eq, Structural)]
pub enum MenuAction {
    Open,
    ToggleFollow,
    ToggleWatch,
    EditSettings,
    Quit,
    /// An id no item has.
    Ignore,
}

/// The item that a menu event's id names.
pub open spec fn menu_item(id: Seq<char>) -> MenuAction {
    if id == "open"@ {
        MenuAction::Open
    } else if id == "follow"@ {
        MenuAction::ToggleFollow
    } else if id == "watch"@ {
        MenuAction::ToggleWatch
    } else if id == "config"@ {
        MenuAction::EditSettings
    } else if id == "quit"@ {
        MenuAction::Quit
    } else {
        MenuAction::Ignore
    }
}

/// Reads a menu event's id.
pub fn menu_action(id: &str) -> (a: MenuAction)
    ensures
        a == menu_item(id@),
{
    if same_text(id, "open") {
        MenuAction::Open
    } else if same_text(id, "follow") {
        MenuAction::ToggleFollow
    } else if same_text(id, "watch") {
        MenuAction::ToggleWatch
    } else if same_text(id, "config") {
        MenuAction::EditSettings
    } else if same_text(id, "quit") {
        MenuAction::Quit
    } else {
        MenuAction::Ignore
    }
}

} // verus!
