use shortcut_dispatch::normalize::normalize;
use shortcut_dispatch::normalize::shortcuts_match;
use shortcut_dispatch::normalize::str_eq;

#[test]
fn normalize_is_order_insensitive_on_examples() {
    assert_eq!(normalize("Shift+Control+G"), "control+shift+g");
    assert_eq!(normalize("Control+Shift+G"), "control+shift+g");
    assert_eq!(normalize("control+shift+g"), "control+shift+g");
    assert_eq!(normalize("Shift+Control+G"), normalize("Control+Shift+G"));
    assert_eq!(normalize("Control+Shift+G"), normalize("control+shift+g"));
}

#[test]
fn normalize_sorts_three_modifiers() {
    assert_eq!(normalize("Shift+Alt+Control+A"), "alt+control+shift+a");
    assert_eq!(normalize("Control+Alt+Shift+A"), "alt+control+shift+a");
}

#[test]
fn normalize_is_idempotent_on_samples() {
    let samples = [
        "Shift+Control+G",
        "CommandOrControl+K",
        "Cmd+Space",
        "Control+KeyG",
        "KeyKeyG",
        "",
        "++a",
        "monkey",
        "Control+Backquote",
        "F5",
    ];
    for s in samples {
        let once = normalize(s);
        let twice = normalize(&once);
        assert_eq!(once, twice);
    }
}

#[test]
fn alias_spellings_normalize_like_control() {
    assert_eq!(normalize("CommandOrControl+K"), normalize("Control+K"));
    assert_eq!(normalize("Cmd+K"), normalize("Control+K"));
    assert_eq!(normalize("Command+K"), normalize("Control+K"));
    assert_eq!(normalize("Control+K"), "control+k");
}

#[test]
fn key_prefix_is_stripped_from_key_names() {
    assert_eq!(normalize("Control+KeyG"), "control+g");
    assert_eq!(normalize("Control+Key1"), "control+1");
    assert_eq!(normalize("KeyG"), "g");
    assert_eq!(normalize("KeyKeyG"), "g");
}

#[test]
fn malformed_input_normalizes_to_itself() {
    assert_eq!(normalize(""), "");
    assert_eq!(normalize("control+"), "control+");
    assert_eq!(normalize("+"), "+");
}

#[test]
fn no_modifier_shortcut_is_just_the_key() {
    assert_eq!(normalize("F5"), "f5");
    assert_eq!(normalize("Space"), "space");
}

#[test]
fn backquote_spellings_keep_their_names() {
    assert_eq!(normalize("Control+Backquote"), "control+backquote");
    assert_eq!(normalize("Shift+Grave"), "shift+grave");
    assert_eq!(normalize("Control+`"), "control+`");
}

#[test]
fn shortcuts_match_sees_through_spellings() {
    assert!(shortcuts_match("Control+KeyG", "control+g"));
    assert!(shortcuts_match("Shift+Control+G", "Control+Shift+G"));
    assert!(!shortcuts_match("Control+G", "Control+H"));
}

#[test]
fn str_eq_compares_by_characters() {
    assert!(str_eq("abc", "abc"));
    assert!(!str_eq("abc", "abd"));
    assert!(!str_eq("abc", "abcd"));
    assert!(str_eq("", ""));
}
