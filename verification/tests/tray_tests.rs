use portly::tray::{menu_quits, tray_click_action, TrayAction};

#[test]
fn left_click_toggles_the_window() {
    assert_eq!(tray_click_action(true, true, true), TrayAction::HideWindow);
    assert_eq!(tray_click_action(true, true, false), TrayAction::ShowWindow);
}

#[test]
fn other_events_are_ignored() {
    assert_eq!(tray_click_action(false, true, false), TrayAction::Ignore);
    assert_eq!(tray_click_action(true, false, true), TrayAction::Ignore);
    assert_eq!(tray_click_action(false, false, false), TrayAction::Ignore);
}

#[test]
fn only_quit_ends_the_app() {
    assert!(menu_quits("quit"));
    assert!(!menu_quits("Quit"));
    assert!(!menu_quits(""));
    assert!(!menu_quits("quit "));
}
