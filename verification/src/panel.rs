//! When the side panel shows and hides.

use vstd::prelude::*;

verus! {

/// How long after the panel was shown a loss of focus does not hide it.
pub const BLUR_GRACE_MS: u64 = 800;

/// How long the panel's hide animation runs before the window is hidden.
pub const HIDE_DELAY_MS: u64 = 300;

/// How often the clipboard is read.
pub const POLL_INTERVAL_MS: u64 = 500;

/// How long a click on the tray icon waits before it toggles the panel.
pub const TRAY_CLICK_DELAY_MS: u64 = 100;

/// What the window does next.
#[derive(Debug, Clone, Copy, PartialEq, Eq, Structural)]
pub enum PanelAction {
    /// Place the panel at the right edge, show it, focus it and announce it.
    Show,
    /// Announce the hide animation, then hide the window after
    /// `HIDE_DELAY_MS`.
    Hide,
}

/// Toggles the panel at time `now`: a visible panel hides; a hidden one
/// shows, and `now` is recorded in `last_shown_at` as the time it was shown.
pub fn toggle_panel(visible: bool, now: u64, last_shown_at: &mut u64) -> (action: PanelAction)
    ensures
        visible ==> action == PanelAction::Hide && *final(last_shown_at) == *old(last_shown_at),
        !visible ==> action == PanelAction::Show && *final(last_shown_at) == now,
{
    if visible {
        PanelAction::Hide
    } else {
        *last_shown_at = now;
        PanelAction::Show
    }
}

/// Whether the panel hides when it loses focus at `now`, having been shown
/// at `last_shown_at`: only once `BLUR_GRACE_MS` have passed.
pub fn hides_on_blur(now: u64, last_shown_at: u64) -> (hides: bool)
    requires
        last_shown_at <= now,
    ensures
        hides == (now - last_shown_at >= BLUR_GRACE_MS),
{
    now - last_shown_at >= BLUR_GRACE_MS
}

} // verus!
