use clicky::settings::{apply_env, Settings, DEFAULT_FOLLOW_EASING_BITS};

#[test]
fn default_settings_match_the_readme() {
    let s = Settings::default();
    assert_eq!(s.model, "gemma3:4b");
    assert_eq!(s.host, "http://127.0.0.1:11434");
    assert!(s.follow_cursor);
    assert!(s.watch_selection);
    assert!(s.auto_open);
    assert!(!s.auto_open_focus);
    assert_eq!(s.auto_close_ms, 14_000);
    assert_eq!(s.offset_x, 22);
    assert_eq!(s.offset_y, 22);
    assert_eq!(f64::from_bits(s.follow_easing_bits), 0.22);
    assert_eq!(s.follow_easing_bits, DEFAULT_FOLLOW_EASING_BITS);
    assert_eq!(s.target_language, "English");
    assert_eq!(s.hotkey, "");
}

#[test]
fn env_overrides_win() {
    let mut s = Settings::default();
    apply_env(&mut s, Some("qwen3:4b".to_string()), None);
    assert_eq!(s.model, "qwen3:4b");
    assert_eq!(s.host, "http://127.0.0.1:11434");
    apply_env(&mut s, None, Some("http://other:1".to_string()));
    assert_eq!(s.model, "qwen3:4b");
    assert_eq!(s.host, "http://other:1");
    apply_env(&mut s, None, None);
    assert_eq!(s.host, "http://other:1");
}

#[test]
fn toggles_flip_and_report() {
    let mut s = Settings::default();
    assert!(!s.toggle_follow());
    assert!(!s.follow_cursor);
    assert!(s.toggle_follow());
    assert!(!s.toggle_watch());
    assert!(!s.watch_selection);
    assert!(s.auto_open);
}

#[test]
fn empty_hotkey_means_default() {
    let mut s = Settings::default();
    assert_eq!(s.custom_hotkey(), None);
    s.hotkey = "Alt+Space".to_string();
    assert_eq!(s.custom_hotkey(), Some("Alt+Space".to_string()));
}

#[test]
fn auto_panel_follows_auto_open() {
    let mut s = Settings::default();
    assert_eq!(s.auto_panel(), Some(false));
    s.auto_open_focus = true;
    assert_eq!(s.auto_panel(), Some(true));
    s.auto_open = false;
    assert_eq!(s.auto_panel(), None);
}
