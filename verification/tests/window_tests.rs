use shortcut_dispatch::errors::DispatchError;
use shortcut_dispatch::window::MainWindowAction;
use shortcut_dispatch::window::VisibilityQuery;
use shortcut_dispatch::window::WindowAction;
use shortcut_dispatch::window::WindowState;
use shortcut_dispatch::window::clamp_height;
use shortcut_dispatch::window::close_requested_step;
use shortcut_dispatch::window::hide_window_step;
use shortcut_dispatch::window::quick_window_config;
use shortcut_dispatch::window::resize_quick_window_step;
use shortcut_dispatch::window::toggle_main_window_step;
use shortcut_dispatch::window::toggle_quick_window_step;

fn query_of(state: WindowState) -> VisibilityQuery {
    match state {
        WindowState::Visible => VisibilityQuery::SeenVisible,
        _ => VisibilityQuery::SeenHidden,
    }
}

#[test]
fn three_toggles_go_visible_hidden_visible() {
    let s0 = WindowState::Absent;
    let (a1, s1) = toggle_quick_window_step(s0 != WindowState::Absent, query_of(s0));
    assert_eq!(a1, WindowAction::CreateVisible);
    assert_eq!(s1, WindowState::Visible);
    let (a2, s2) = toggle_quick_window_step(s1 != WindowState::Absent, query_of(s1));
    assert_eq!(a2, WindowAction::Hide);
    assert_eq!(s2, WindowState::Hidden);
    let (a3, s3) = toggle_quick_window_step(s2 != WindowState::Absent, query_of(s2));
    assert_eq!(a3, WindowAction::ShowFocus);
    assert_eq!(s3, WindowState::Visible);
}

#[test]
fn unknown_visibility_fails_open_to_showing() {
    let (a, s) = toggle_quick_window_step(true, VisibilityQuery::Unknown);
    assert_eq!(a, WindowAction::ShowFocus);
    assert_eq!(s, WindowState::Visible);
}

#[test]
fn close_request_hides_and_never_destroys() {
    let (a, s) = close_requested_step();
    assert_eq!(a, WindowAction::Hide);
    assert_eq!(s, WindowState::Hidden);
}

#[test]
fn resize_clamps_low_requests_to_minimum() {
    assert_eq!(resize_quick_window_step(true, 50), Ok((600, 100)));
}

#[test]
fn resize_clamps_high_requests_to_maximum() {
    assert_eq!(resize_quick_window_step(true, 900), Ok((600, 600)));
}

#[test]
fn resize_keeps_heights_in_range() {
    assert_eq!(resize_quick_window_step(true, 300), Ok((600, 300)));
    assert_eq!(clamp_height(100), 100);
    assert_eq!(clamp_height(600), 600);
    assert_eq!(clamp_height(0), 100);
}

#[test]
fn resize_of_a_missing_window_is_an_error() {
    assert_eq!(resize_quick_window_step(false, 300), Err(DispatchError::WindowNotFound));
}

#[test]
fn main_toggle_hides_when_focused() {
    let r = toggle_main_window_step(true, VisibilityQuery::SeenVisible, true);
    assert_eq!(r, Ok((MainWindowAction::HideMain, WindowState::Hidden)));
}

#[test]
fn main_toggle_focuses_when_unfocused() {
    let r = toggle_main_window_step(true, VisibilityQuery::SeenVisible, false);
    assert_eq!(r, Ok((MainWindowAction::FocusNotify, WindowState::Visible)));
}

#[test]
fn main_toggle_shows_when_hidden() {
    let r = toggle_main_window_step(true, VisibilityQuery::SeenHidden, false);
    assert_eq!(r, Ok((MainWindowAction::ShowFocusNotify, WindowState::Visible)));
}

#[test]
fn main_toggle_needs_the_window() {
    let r = toggle_main_window_step(false, VisibilityQuery::Unknown, false);
    assert_eq!(r, Err(DispatchError::WindowNotFound));
}

#[test]
fn hide_step_hides_or_reports() {
    assert_eq!(hide_window_step(true), Ok((WindowAction::Hide, WindowState::Hidden)));
    assert_eq!(hide_window_step(false), Err(DispatchError::WindowNotFound));
}

#[test]
fn quick_window_configs_match_their_labels() {
    let note = quick_window_config("quicknote").unwrap();
    assert_eq!(note.title, "Quick Note");
    assert_eq!(note.url, "/quicknote");
    assert_eq!((note.width, note.height), (600, 150));
    assert!(note.resizable);
    assert!(!note.skip_taskbar);
    let ai = quick_window_config("quickai").unwrap();
    assert_eq!(ai.title, "Quick AI");
    assert_eq!((ai.width, ai.height), (600, 125));
    let tool = quick_window_config("quicktool").unwrap();
    assert_eq!(tool.title, "Quick Tool");
    assert_eq!((tool.width, tool.height), (190, 35));
    assert!(!tool.resizable);
    assert!(tool.skip_taskbar);
    assert!(quick_window_config("main").is_none());
}

#[test]
fn quick_windows_share_their_creation_flags() {
    for label in ["quicknote", "quickai", "quicktool"] {
        let cfg = quick_window_config(label).unwrap();
        assert!(cfg.focused);
        assert!(cfg.visible);
        assert!(cfg.always_on_top);
        assert!(!cfg.decorations);
        assert!(!cfg.minimizable);
        assert!(!cfg.maximizable);
        assert!(!cfg.closable);
    }
}
