use sidepar::clock::{now_ms, timestamp_from_elapsed};
use sidepar::panel::{hides_on_blur, toggle_panel, PanelAction, BLUR_GRACE_MS};

#[test]
fn visible_panel_hides() {
    let mut shown_at = 42u64;
    assert_eq!(toggle_panel(true, 99, &mut shown_at), PanelAction::Hide);
    assert_eq!(shown_at, 42);
}

#[test]
fn hidden_panel_shows_and_records_time() {
    let mut shown_at = 0u64;
    assert_eq!(toggle_panel(false, 1_700_000_000_500, &mut shown_at), PanelAction::Show);
    assert_eq!(shown_at, 1_700_000_000_500);
}

#[test]
fn blur_right_after_showing_is_ignored() {
    assert!(!hides_on_blur(1_000, 1_000));
    assert!(!hides_on_blur(1_799, 1_000));
    assert!(hides_on_blur(1_000 + BLUR_GRACE_MS, 1_000));
    assert!(hides_on_blur(10_000, 1_000));
}

#[test]
fn timestamp_cuts_like_a_cast() {
    assert_eq!(timestamp_from_elapsed(Some(1_700_000_000_123)), Some(1_700_000_000_123));
    assert_eq!(timestamp_from_elapsed(Some((1u128 << 64) + 5)), Some(5));
    assert_eq!(timestamp_from_elapsed(None), None);
}

#[test]
fn clock_reads_milliseconds_since_epoch() {
    let a = now_ms().expect("clock after the epoch");
    let b = now_ms().expect("clock after the epoch");
    assert!(a > 1_600_000_000_000);
    assert!(b >= a);
}
