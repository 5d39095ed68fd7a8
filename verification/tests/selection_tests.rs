use shortcut_dispatch::errors::DispatchError;
use shortcut_dispatch::registry::ShortcutRegistry;
use shortcut_dispatch::text_selection::SelectionOutcome;
use shortcut_dispatch::text_selection::TextSelectionMonitor;
use shortcut_dispatch::text_selection::is_text_selection_enabled_for;
use shortcut_dispatch::text_selection::make_selection_event;
use shortcut_dispatch::text_selection::selection_flow_step;
use shortcut_dispatch::text_selection::selection_text_ok;
use shortcut_dispatch::text_selection::setup_text_selection_monitoring;
use shortcut_dispatch::text_selection::trigger_shortcut_for;
use shortcut_dispatch::window::VisibilityQuery;

#[test]
fn monitor_starts_disarmed_on_ctrl() {
    let mon = TextSelectionMonitor::new();
    assert!(!mon.enabled);
    assert_eq!(mon.trigger_modifier, "ctrl");
}

#[test]
fn enabled_for_checks_both_flag_and_modifier() {
    let mut mon = TextSelectionMonitor::new();
    assert!(!is_text_selection_enabled_for(&mon, "ctrl"));
    mon.enabled = true;
    assert!(is_text_selection_enabled_for(&mon, "ctrl"));
    assert!(!is_text_selection_enabled_for(&mon, "shift"));
}

#[test]
fn trigger_shortcuts_per_modifier() {
    assert_eq!(trigger_shortcut_for("ctrl"), "Control+Backquote");
    assert_eq!(trigger_shortcut_for("shift"), "Shift+Backquote");
    assert_eq!(trigger_shortcut_for("alt"), "Alt+Backquote");
    assert_eq!(trigger_shortcut_for("hyper"), "Control+Backquote");
}

#[test]
fn enabling_monitoring_remembers_the_trigger_binding() {
    let mut mon = TextSelectionMonitor::new();
    let mut reg = ShortcutRegistry::new();
    let r = setup_text_selection_monitoring(&mut mon, &mut reg, true, "shift".to_string(), true);
    assert!(r.is_ok());
    assert!(mon.enabled);
    assert_eq!(mon.trigger_modifier, "shift");
    assert_eq!(reg.get(&"backquote+shift".to_string()), None);
    assert_eq!(reg.get(&"shift+backquote".to_string()).unwrap(), "text-selection");
}

#[test]
fn refused_bind_is_reported_and_registry_untouched() {
    let mut mon = TextSelectionMonitor::new();
    let mut reg = ShortcutRegistry::new();
    let r = setup_text_selection_monitoring(&mut mon, &mut reg, true, "ctrl".to_string(), false);
    assert_eq!(r, Err(DispatchError::OsRegistrationFailed));
    assert_eq!(reg.len(), 0);
}

#[test]
fn disabling_keeps_the_stored_modifier() {
    let mut mon = TextSelectionMonitor::new();
    let mut reg = ShortcutRegistry::new();
    assert!(setup_text_selection_monitoring(&mut mon, &mut reg, true, "alt".to_string(), true)
        .is_ok());
    assert!(setup_text_selection_monitoring(&mut mon, &mut reg, false, "ctrl".to_string(), true)
        .is_ok());
    assert!(!mon.enabled);
    assert_eq!(mon.trigger_modifier, "alt");
}

#[test]
fn selection_text_must_have_substance() {
    assert!(!selection_text_ok(""));
    assert!(!selection_text_ok("a"));
    assert!(selection_text_ok("ab"));
    assert!(!selection_text_ok("  a  "));
    assert!(selection_text_ok(" ab "));
    assert!(!selection_text_ok(" \t\n\r "));
    assert!(selection_text_ok("hello world"));
}

#[test]
fn selection_text_sees_all_unicode_whitespace_as_blank() {
    // Characters `str::trim` discards do not count as substance: two
    // vertical tabs trim to nothing, and non-breaking spaces around a single
    // letter leave only that letter.
    assert!(!selection_text_ok("\u{000B}\u{000B}"));
    assert!(!selection_text_ok("\u{000C}\u{0085}\u{00A0}"));
    assert!(!selection_text_ok("\u{00A0}a\u{00A0}"));
    assert!(!selection_text_ok("\u{2003}\u{2028}\u{3000}"));
    assert!(selection_text_ok("\u{2003}ab\u{2003}"));
}

#[test]
fn selection_text_counts_characters_not_bytes() {
    // One accented letter is a single character even though it is more than
    // one byte, so it is skipped; two of them are substance.
    assert!(!selection_text_ok("\u{00E9}"));
    assert!(selection_text_ok("\u{00E9}\u{00E9}"));
}

#[test]
fn selection_flow_skips_short_text() {
    assert_eq!(
        selection_flow_step(false, true, VisibilityQuery::SeenHidden),
        SelectionOutcome::Skip
    );
}

#[test]
fn selection_flow_toggles_a_visible_tool_away() {
    assert_eq!(
        selection_flow_step(true, true, VisibilityQuery::SeenVisible),
        SelectionOutcome::HideTool
    );
}

#[test]
fn selection_flow_shows_the_tool_otherwise() {
    assert_eq!(
        selection_flow_step(true, true, VisibilityQuery::SeenHidden),
        SelectionOutcome::ShowToolAndNotify
    );
    assert_eq!(
        selection_flow_step(true, true, VisibilityQuery::Unknown),
        SelectionOutcome::ShowToolAndNotify
    );
    assert_eq!(
        selection_flow_step(true, false, VisibilityQuery::Unknown),
        SelectionOutcome::ShowToolAndNotify
    );
}

#[test]
fn selection_events_carry_the_capture() {
    let e = make_selection_event("picked text".to_string(), 40, 30);
    assert_eq!(e.text, "picked text");
    assert_eq!(e.x, 40);
    assert_eq!(e.y, 30);
    assert!(e.modifier_pressed);
    assert_eq!(e.modifier, "shortcut");
}

#[test]
fn error_messages_name_their_kind() {
    assert_eq!(DispatchError::InvalidShortcutFormat.message(), "invalid shortcut format");
    assert_eq!(
        DispatchError::OsRegistrationFailed.message(),
        "the system refused to bind or unbind the shortcut"
    );
    assert_eq!(DispatchError::WindowNotFound.message(), "window not found");
}
