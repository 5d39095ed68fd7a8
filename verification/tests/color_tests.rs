use shortcut_dispatch::color::hex_to_rgba;
use shortcut_dispatch::color::theme_background;
use shortcut_dispatch::hotkey::HotkeyConfig;

#[test]
fn red_parses_to_full_red() {
    assert_eq!(hex_to_rgba("#FF0000"), Some((255, 0, 0, 255)));
}

#[test]
fn dark_background_parses() {
    assert_eq!(hex_to_rgba("#1C1C1E"), Some((28, 28, 30, 255)));
    assert_eq!(hex_to_rgba("1C1C1E"), Some((28, 28, 30, 255)));
}

#[test]
fn lower_case_digits_parse() {
    assert_eq!(hex_to_rgba("f8f8f8"), Some((248, 248, 248, 255)));
}

#[test]
fn repeated_hash_marks_are_stripped() {
    assert_eq!(hex_to_rgba("##ABC123"), Some((171, 193, 35, 255)));
}

#[test]
fn malformed_colors_are_rejected() {
    assert_eq!(hex_to_rgba(""), None);
    assert_eq!(hex_to_rgba("#FFF"), None);
    assert_eq!(hex_to_rgba("#GGGGGG"), None);
    assert_eq!(hex_to_rgba("#FF00001"), None);
    assert_eq!(hex_to_rgba("#"), None);
}

#[test]
fn themes_pick_their_backgrounds() {
    assert_eq!(theme_background("light"), Some((248, 248, 248, 255)));
    assert_eq!(theme_background("dark"), Some((28, 28, 30, 255)));
    assert_eq!(theme_background("sepia"), None);
}

#[test]
fn default_hotkey_config_matches_the_shipped_one() {
    let c = HotkeyConfig::default();
    assert_eq!(c.quick_note, "Shift+Space");
    assert_eq!(c.quick_ai, "Alt+Space");
    assert!(c.enabled);
    assert!(c.ai_enabled);
    assert!(c.system_tray_enabled);
    assert_eq!(c.window_behavior, "show");
}
