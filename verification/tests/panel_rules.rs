use clicky::panel::{blur_hides, menu_action, summon_action, take_panel_text, MenuAction, SummonAction};

#[test]
fn panel_keeps_text_when_given_nothing() {
    let mut held = String::new();
    assert_eq!(take_panel_text(&mut held, "first".to_string()), "first");
    assert_eq!(take_panel_text(&mut held, String::new()), "first");
    assert_eq!(take_panel_text(&mut held, "second".to_string()), "second");
    assert_eq!(held, "second");
}

#[test]
fn blur_right_after_show_is_ignored() {
    assert!(!blur_hides(0));
    assert!(!blur_hides(600_000_000));
    assert!(blur_hides(600_000_001));
}

#[test]
fn hotkey_toggles_panel() {
    assert!(summon_action(true, true) == SummonAction::HidePanel);
    assert!(summon_action(true, false) == SummonAction::HidePanel);
    assert!(summon_action(false, true) == SummonAction::CaptureAndShow);
    assert!(summon_action(false, false) == SummonAction::Nothing);
}

#[test]
fn menu_ids() {
    assert!(menu_action("open") == MenuAction::Open);
    assert!(menu_action("follow") == MenuAction::ToggleFollow);
    assert!(menu_action("watch") == MenuAction::ToggleWatch);
    assert!(menu_action("config") == MenuAction::EditSettings);
    assert!(menu_action("quit") == MenuAction::Quit);
    assert!(menu_action("Quit") == MenuAction::Ignore);
    assert!(menu_action("") == MenuAction::Ignore);
}
