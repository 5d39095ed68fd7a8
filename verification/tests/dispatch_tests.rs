use shortcut_dispatch::dispatch::Command;
use shortcut_dispatch::dispatch::DispatchAction;
use shortcut_dispatch::dispatch::PressState;
use shortcut_dispatch::dispatch::command_action;
use shortcut_dispatch::dispatch::dispatch_shortcut;
use shortcut_dispatch::dispatch::parse_command;
use shortcut_dispatch::hotkey::register_hotkey_commit;
use shortcut_dispatch::registry::ShortcutRegistry;
use shortcut_dispatch::registry::register_shortcut_command;
use shortcut_dispatch::text_selection::TextSelectionMonitor;
use shortcut_dispatch::text_selection::setup_text_selection_monitoring;

fn armed_monitor(modifier: &str) -> TextSelectionMonitor {
    TextSelectionMonitor { enabled: true, trigger_modifier: modifier.to_string() }
}

#[test]
fn selection_wins_over_registered_command() {
    let mut reg = ShortcutRegistry::new();
    register_shortcut_command(&mut reg, "Control+Backquote".to_string(), "quicknote".to_string());
    let mon = armed_monitor("ctrl");
    let a = dispatch_shortcut(&reg, &mon, "Control+Backquote", PressState::Pressed);
    assert!(a.is_capture_selection());
}

#[test]
fn fuzzy_fallback_resolves_differing_spellings() {
    let mut reg = ShortcutRegistry::new();
    assert!(register_hotkey_commit(&mut reg, "Control+KeyG", "quicknote".to_string(), true).is_ok());
    let mon = TextSelectionMonitor::new();
    let a = dispatch_shortcut(&reg, &mon, "control+g", PressState::Pressed);
    assert!(matches!(a, DispatchAction::ToggleQuickNote));
}

#[test]
fn unknown_command_is_logged_and_harmless() {
    let mut reg = ShortcutRegistry::new();
    register_shortcut_command(&mut reg, "Alt+Space".to_string(), "future-feature".to_string());
    let mon = TextSelectionMonitor::new();
    let a = dispatch_shortcut(&reg, &mon, "Alt+Space", PressState::Pressed);
    match a {
        DispatchAction::LogUnknown(name) => assert_eq!(name, "future-feature"),
        _ => panic!("expected the unknown command to be logged"),
    }
}

#[test]
fn release_events_are_ignored() {
    let mut reg = ShortcutRegistry::new();
    register_shortcut_command(&mut reg, "Alt+Space".to_string(), "quickai".to_string());
    let mon = armed_monitor("ctrl");
    let a = dispatch_shortcut(&reg, &mon, "Alt+Space", PressState::Released);
    assert!(a.is_ignore());
}

#[test]
fn unmapped_press_is_ignored() {
    let reg = ShortcutRegistry::new();
    let mon = TextSelectionMonitor::new();
    let a = dispatch_shortcut(&reg, &mon, "Control+J", PressState::Pressed);
    assert!(a.is_ignore());
}

#[test]
fn disarmed_monitor_never_captures() {
    let reg = ShortcutRegistry::new();
    let mon = TextSelectionMonitor::new();
    let a = dispatch_shortcut(&reg, &mon, "Control+Backquote", PressState::Pressed);
    assert!(a.is_ignore());
}

#[test]
fn wrong_modifier_does_not_capture() {
    let reg = ShortcutRegistry::new();
    let mon = armed_monitor("shift");
    let a = dispatch_shortcut(&reg, &mon, "Control+Backquote", PressState::Pressed);
    assert!(a.is_ignore());
    let b = dispatch_shortcut(&reg, &mon, "Shift+Backquote", PressState::Pressed);
    assert!(b.is_capture_selection());
}

#[test]
fn every_backquote_spelling_triggers() {
    let reg = ShortcutRegistry::new();
    let mon = armed_monitor("alt");
    for pressed in ["Alt+Backquote", "Alt+Grave", "Alt+`"] {
        let a = dispatch_shortcut(&reg, &mon, pressed, PressState::Pressed);
        assert!(a.is_capture_selection());
    }
}

#[test]
fn exact_match_dispatches_each_known_command() {
    let mut reg = ShortcutRegistry::new();
    register_shortcut_command(&mut reg, "Alt+N".to_string(), "quicknote".to_string());
    register_shortcut_command(&mut reg, "Alt+A".to_string(), "quickai".to_string());
    register_shortcut_command(&mut reg, "Alt+T".to_string(), "quicktool".to_string());
    register_shortcut_command(&mut reg, "Alt+S".to_string(), "text-selection".to_string());
    let mon = TextSelectionMonitor::new();
    assert!(matches!(
        dispatch_shortcut(&reg, &mon, "Alt+N", PressState::Pressed),
        DispatchAction::ToggleQuickNote
    ));
    assert!(matches!(
        dispatch_shortcut(&reg, &mon, "Alt+A", PressState::Pressed),
        DispatchAction::ToggleQuickAi
    ));
    assert!(matches!(
        dispatch_shortcut(&reg, &mon, "Alt+T", PressState::Pressed),
        DispatchAction::ToggleQuickTool
    ));
    assert!(dispatch_shortcut(&reg, &mon, "Alt+S", PressState::Pressed).is_capture_selection());
}

#[test]
fn selection_trigger_setup_then_press_captures() {
    let mut reg = ShortcutRegistry::new();
    let mut mon = TextSelectionMonitor::new();
    assert!(setup_text_selection_monitoring(&mut mon, &mut reg, true, "ctrl".to_string(), true)
        .is_ok());
    let a = dispatch_shortcut(&reg, &mon, "Control+Backquote", PressState::Pressed);
    assert!(a.is_capture_selection());
}

#[test]
fn parse_command_knows_the_vocabulary() {
    assert!(matches!(parse_command("quicknote"), Command::QuickNote));
    assert!(matches!(parse_command("quickai"), Command::QuickAi));
    assert!(matches!(parse_command("quicktool"), Command::QuickTool));
    assert!(matches!(parse_command("text-selection"), Command::TextSelection));
    match parse_command("something-else") {
        Command::Unknown(s) => assert_eq!(s, "something-else"),
        _ => panic!("expected an unknown command"),
    }
}

#[test]
fn command_action_maps_the_vocabulary() {
    assert!(matches!(command_action(Command::QuickNote), DispatchAction::ToggleQuickNote));
    assert!(matches!(command_action(Command::QuickAi), DispatchAction::ToggleQuickAi));
    assert!(matches!(command_action(Command::QuickTool), DispatchAction::ToggleQuickTool));
    assert!(command_action(Command::TextSelection).is_capture_selection());
    match command_action(Command::Unknown("x".to_string())) {
        DispatchAction::LogUnknown(s) => assert_eq!(s, "x"),
        _ => panic!("expected the unknown command to be logged"),
    }
}
