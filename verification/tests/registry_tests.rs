use shortcut_dispatch::errors::DispatchError;
use shortcut_dispatch::hotkey::register_hotkey_commit;
use shortcut_dispatch::hotkey::unregister_hotkey_commit;
use shortcut_dispatch::hotkey::validate_shortcut;
use shortcut_dispatch::registry::ShortcutRegistry;
use shortcut_dispatch::registry::register_shortcut_command;

#[test]
fn empty_registry_has_nothing() {
    let reg = ShortcutRegistry::new();
    assert_eq!(reg.len(), 0);
    assert!(reg.get(&"alt+space".to_string()).is_none());
}

#[test]
fn insert_get_and_remove_round_trip() {
    let mut reg = ShortcutRegistry::new();
    reg.insert("alt+space".to_string(), "quickai".to_string());
    assert_eq!(reg.len(), 1);
    assert_eq!(reg.get(&"alt+space".to_string()).unwrap(), "quickai");
    assert!(reg.contains_key(&"alt+space".to_string()));
    reg.remove(&"alt+space".to_string());
    assert_eq!(reg.len(), 0);
    assert!(!reg.contains_key(&"alt+space".to_string()));
}

#[test]
fn registry_last_write_wins() {
    let mut reg = ShortcutRegistry::new();
    assert!(register_hotkey_commit(&mut reg, "Alt+Space", "quickai".to_string(), true).is_ok());
    assert!(register_hotkey_commit(&mut reg, "Alt+Space", "quicknote".to_string(), true).is_ok());
    let listed = reg.get_registered_shortcuts();
    assert_eq!(listed.get(&"alt+space".to_string()).unwrap(), "quicknote");
    assert_eq!(listed.len(), 1);
}

#[test]
fn register_shortcut_command_normalizes_the_key() {
    let mut reg = ShortcutRegistry::new();
    register_shortcut_command(&mut reg, "Control+KeyG".to_string(), "quicknote".to_string());
    assert_eq!(reg.get(&"control+g".to_string()).unwrap(), "quicknote");
}

#[test]
fn snapshot_is_a_copy() {
    let mut reg = ShortcutRegistry::new();
    register_shortcut_command(&mut reg, "Alt+Space".to_string(), "quickai".to_string());
    let snap = reg.get_registered_shortcuts();
    reg.remove(&"alt+space".to_string());
    assert!(snap.contains_key(&"alt+space".to_string()));
    assert!(!reg.contains_key(&"alt+space".to_string()));
}

#[test]
fn find_fuzzy_sees_equivalent_spellings() {
    let mut reg = ShortcutRegistry::new();
    reg.insert("Control+KeyG".to_string(), "quicknote".to_string());
    let target = "control+g".to_string();
    assert!(reg.get(&target).is_none());
    assert_eq!(reg.find_fuzzy(&target).unwrap(), "quicknote");
    assert!(reg.find_fuzzy(&"control+h".to_string()).is_none());
}

#[test]
fn validate_shortcut_accepts_known_shapes() {
    assert!(validate_shortcut("Control+G"));
    assert!(validate_shortcut("CommandOrControl+K"));
    assert!(validate_shortcut("Shift+Alt+F5"));
    assert!(validate_shortcut("G"));
    assert!(validate_shortcut("Control+Backquote"));
}

#[test]
fn validate_shortcut_rejects_malformed_shapes() {
    assert!(!validate_shortcut(""));
    assert!(!validate_shortcut("Control+"));
    assert!(!validate_shortcut("Control+Shift"));
    assert!(!validate_shortcut("Foo+G"));
    assert!(!validate_shortcut("Control+Foo+G"));
}

#[test]
fn register_rejects_invalid_format() {
    let mut reg = ShortcutRegistry::new();
    let r = register_hotkey_commit(&mut reg, "Foo+G", "quicknote".to_string(), true);
    assert_eq!(r, Err(DispatchError::InvalidShortcutFormat));
    assert_eq!(reg.len(), 0);
}

#[test]
fn register_reports_os_refusal_and_stores_nothing() {
    let mut reg = ShortcutRegistry::new();
    let r = register_hotkey_commit(&mut reg, "Alt+Space", "quickai".to_string(), false);
    assert_eq!(r, Err(DispatchError::OsRegistrationFailed));
    assert_eq!(reg.len(), 0);
}

#[test]
fn unregister_clears_despite_os_failure() {
    let mut reg = ShortcutRegistry::new();
    assert!(register_hotkey_commit(&mut reg, "Alt+Space", "quickai".to_string(), true).is_ok());
    let r = unregister_hotkey_commit(&mut reg, "Alt+Space", false);
    assert_eq!(r, Err(DispatchError::OsRegistrationFailed));
    let listed = reg.get_registered_shortcuts();
    assert!(listed.get(&"alt+space".to_string()).is_none());
}

#[test]
fn unregister_ok_when_host_agrees() {
    let mut reg = ShortcutRegistry::new();
    assert!(register_hotkey_commit(&mut reg, "Alt+Space", "quickai".to_string(), true).is_ok());
    assert!(unregister_hotkey_commit(&mut reg, "Alt+Space", true).is_ok());
    assert!(!reg.contains_key(&"alt+space".to_string()));
}

#[test]
fn unregister_rejects_invalid_format() {
    let mut reg = ShortcutRegistry::new();
    register_shortcut_command(&mut reg, "Alt+Space".to_string(), "quickai".to_string());
    let r = unregister_hotkey_commit(&mut reg, "", true);
    assert_eq!(r, Err(DispatchError::InvalidShortcutFormat));
    assert_eq!(reg.len(), 1);
}
