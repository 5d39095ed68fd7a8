//! Window Toggle Controller: the show/hide/create state machine of the
//! auxiliary windows (quick-note, quick-AI, quick-tool) and of the main
//! window, plus the height clamping used when a quick window is resized.
//!
//! The windowing host owns the windows themselves; the controller never
//! assumes a window keeps existing, so every decision here takes the state
//! that the host reported (does the window exist, is it visible) and returns
//! the action the host must perform together with the state the window will
//! be in once the host has performed it.

use vstd::prelude::*;
use crate::errors::DispatchError;
use crate::normalize::str_eq;

verus! {

/// Externally observable state of one logical window.
#[derive(Clone, Copy, PartialEq, Eq, Structural, Debug)]
pub enum WindowState {
    /// The window was never created.
    Absent,
    /// The window exists but is not shown.
    Hidden,
    /// The window exists and is shown.
    Visible,
}

/// What the host answered when asked whether a window is visible.
#[derive(Clone, Copy, PartialEq, Eq, Structural, Debug)]
pub enum VisibilityQuery {
    /// The host reported the window as visible.
    SeenVisible,
    /// The host reported the window as not visible.
    SeenHidden,
    /// The host could not determine visibility.
    Unknown,
}

/// The action a toggle decision asks the host to perform.
#[derive(Clone, Copy, PartialEq, Eq, Structural, Debug)]
pub enum WindowAction {
    /// Create the window, visible and focused.
    CreateVisible,
    /// Show the existing window and focus it.
    ShowFocus,
    /// Hide the existing window.
    Hide,
}

/// Minimum height a quick window can be resized to, in logical units.
pub const MIN_QUICK_HEIGHT: u32 = 100;

/// Maximum height a quick window can be resized to, in logical units.
pub const MAX_QUICK_HEIGHT: u32 = 600;

/// Fixed width of the quick-note and quick-AI windows, in logical units.
pub const QUICK_WINDOW_WIDTH: u32 = 600;

/// Requested heights are clamped to this range rather than rejected.
pub open spec fn clamp_height_spec(h: u32) -> u32 {
    if h < MIN_QUICK_HEIGHT {
        MIN_QUICK_HEIGHT
    } else if h > MAX_QUICK_HEIGHT {
        MAX_QUICK_HEIGHT
    } else {
        h
    }
}

/// Clamp a requested quick-window height into the allowed range.
pub fn clamp_height(h: u32) -> (r: u32)
    ensures
        r == clamp_height_spec(h),
        MIN_QUICK_HEIGHT <= r <= MAX_QUICK_HEIGHT,
{
    if h < MIN_QUICK_HEIGHT {
        MIN_QUICK_HEIGHT
    } else if h > MAX_QUICK_HEIGHT {
        MAX_QUICK_HEIGHT
    } else {
        h
    }
}

/// One toggle of a quick window: create it when absent, show it when hidden
/// (or when visibility could not be determined, failing open toward showing),
/// hide it when visible.  Returns the host action and the resulting state.
pub fn toggle_quick_window_step(exists: bool, vis: VisibilityQuery) -> (r: (
    WindowAction,
    WindowState,
))
    ensures
        !exists ==> r == (WindowAction::CreateVisible, WindowState::Visible),
        exists && vis == VisibilityQuery::SeenVisible ==> r == (
            WindowAction::Hide,
            WindowState::Hidden,
        ),
        exists && vis != VisibilityQuery::SeenVisible ==> r == (
            WindowAction::ShowFocus,
            WindowState::Visible,
        ),
        r.1 != WindowState::Absent,
{
    if !exists {
        (WindowAction::CreateVisible, WindowState::Visible)
    } else {
        match vis {
            VisibilityQuery::SeenVisible => (WindowAction::Hide, WindowState::Hidden),
            _ => (WindowAction::ShowFocus, WindowState::Visible),
        }
    }
}

/// A close request on a toggleable window never destroys it: the close is
/// cancelled and the window is hidden instead, so its content survives.
pub fn close_requested_step() -> (r: (WindowAction, WindowState))
    ensures
        r == (WindowAction::Hide, WindowState::Hidden),
        r.1 != WindowState::Absent,
{
    (WindowAction::Hide, WindowState::Hidden)
}

/// What toggling the main editor window asks the host to do.
#[derive(Clone, Copy, PartialEq, Eq, Structural, Debug)]
pub enum MainWindowAction {
    /// Hide the main window.
    HideMain,
    /// Focus the main window and notify the application layer.
    FocusNotify,
    /// Show the main window, focus it, and notify the application layer.
    ShowFocusNotify,
}

/// One toggle of the main editor window.  The main window is created by the
/// host at startup, so a missing one is an error rather than a reason to
/// create it.  A visible, focused window is hidden; a visible, unfocused one
/// is only brought to the front; a hidden one (or one whose visibility the
/// host cannot determine) is shown and focused.
pub fn toggle_main_window_step(exists: bool, vis: VisibilityQuery, focused: bool) -> (r: Result<
    (MainWindowAction, WindowState),
    DispatchError,
>)
    ensures
        !exists ==> r == Result::<(MainWindowAction, WindowState), DispatchError>::Err(
            DispatchError::WindowNotFound,
        ),
        exists && vis == VisibilityQuery::SeenVisible && focused ==> (r matches Ok(s) && s == (
            MainWindowAction::HideMain,
            WindowState::Hidden,
        )),
        exists && vis == VisibilityQuery::SeenVisible && !focused ==> (r matches Ok(s) && s == (
            MainWindowAction::FocusNotify,
            WindowState::Visible,
        )),
        exists && vis != VisibilityQuery::SeenVisible ==> (r matches Ok(s) && s == (
            MainWindowAction::ShowFocusNotify,
            WindowState::Visible,
        )),
{
    if !exists {
        return Err(DispatchError::WindowNotFound);
    }
    match vis {
        VisibilityQuery::SeenVisible => {
            if focused {
                Ok((MainWindowAction::HideMain, WindowState::Hidden))
            } else {
                Ok((MainWindowAction::FocusNotify, WindowState::Visible))
            }
        },
        _ => Ok((MainWindowAction::ShowFocusNotify, WindowState::Visible)),
    }
}

/// Resize a quick window: the width is fixed per window kind and the
/// requested height is clamped, never rejected.  Returns the effective
/// width and height the host must apply, or an error when the window does
/// not exist (resizing never creates one).
pub fn resize_quick_window_step(exists: bool, requested_height: u32) -> (r: Result<
    (u32, u32),
    DispatchError,
>)
    ensures
        !exists ==> r == Result::<(u32, u32), DispatchError>::Err(DispatchError::WindowNotFound),
        exists ==> (r matches Ok(s) && s == (
            QUICK_WINDOW_WIDTH,
            clamp_height_spec(requested_height),
        )),
{
    if !exists {
        return Err(DispatchError::WindowNotFound);
    }
    Ok((QUICK_WINDOW_WIDTH, clamp_height(requested_height)))
}

/// Hide a window that exists; a missing window is reported, not created.
pub fn hide_window_step(exists: bool) -> (r: Result<(WindowAction, WindowState), DispatchError>)
    ensures
        !exists ==> r == Result::<(WindowAction, WindowState), DispatchError>::Err(
            DispatchError::WindowNotFound,
        ),
        exists ==> (r matches Ok(s) && s == (WindowAction::Hide, WindowState::Hidden)),
{
    if exists {
        Ok((WindowAction::Hide, WindowState::Hidden))
    } else {
        Err(DispatchError::WindowNotFound)
    }
}

/// Fixed width of the quick-tool window, in logical units.
pub const QUICKTOOL_WIDTH: u32 = 190;

/// Fixed height of the quick-tool window, in logical units.
pub const QUICKTOOL_HEIGHT: u32 = 35;

/// How a quick window is created: label-specific size and behavior handed
/// to the windowing host, together with the flags every quick window shares
/// (shown and focused at once, kept on top, undecorated, and neither
/// minimizable, maximizable nor closable, since closing always means
/// hiding).
pub struct QuickWindowConfig {
    pub label: &'static str,
    pub title: &'static str,
    pub url: &'static str,
    pub width: u32,
    pub height: u32,
    pub resizable: bool,
    pub skip_taskbar: bool,
    pub focused: bool,
    pub visible: bool,
    pub always_on_top: bool,
    pub decorations: bool,
    pub minimizable: bool,
    pub maximizable: bool,
    pub closable: bool,
}

/// The flags every quick window is built with.
pub open spec fn common_quick_flags(c: QuickWindowConfig) -> bool {
    &&& c.focused
    &&& c.visible
    &&& c.always_on_top
    &&& !c.decorations
    &&& !c.minimizable
    &&& !c.maximizable
    &&& !c.closable
}

/// The construction settings for a window label, mirroring the executable
/// branch order: quick-note, then quick-AI, then quick-tool, then none.
pub open spec fn quick_window_config_post(label: Seq<char>, r: Option<QuickWindowConfig>) -> bool {
    if label == "quicknote"@ {
        r matches Some(c) && c.label@ == "quicknote"@ && c.title@ == "Quick Note"@ && c.url@
            == "/quicknote"@ && c.width == 600 && c.height == 150 && c.resizable
            && !c.skip_taskbar && common_quick_flags(c)
    } else if label == "quickai"@ {
        r matches Some(c) && c.label@ == "quickai"@ && c.title@ == "Quick AI"@ && c.url@
            == "/quickai"@ && c.width == 600 && c.height == 125 && c.resizable && !c.skip_taskbar
            && common_quick_flags(c)
    } else if label == "quicktool"@ {
        r matches Some(c) && c.label@ == "quicktool"@ && c.title@ == "Quick Tool"@ && c.url@
            == "/quicktool"@ && c.width == QUICKTOOL_WIDTH && c.height == QUICKTOOL_HEIGHT
            && !c.resizable && c.skip_taskbar && common_quick_flags(c)
    } else {
        r is None
    }
}

/// The label-specific construction settings of the three quick windows.
pub fn quick_window_config(label: &str) -> (r: Option<QuickWindowConfig>)
    ensures
        quick_window_config_post(label@, r),
{
    if str_eq(label, "quicknote") {
        Some(
            QuickWindowConfig {
                label: "quicknote",
                title: "Quick Note",
                url: "/quicknote",
                width: 600,
                height: 150,
                resizable: true,
                skip_taskbar: false,
                focused: true,
                visible: true,
                always_on_top: true,
                decorations: false,
                minimizable: false,
                maximizable: false,
                closable: false,
            },
        )
    } else if str_eq(label, "quickai") {
        Some(
            QuickWindowConfig {
                label: "quickai",
                title: "Quick AI",
                url: "/quickai",
                width: 600,
                height: 125,
                resizable: true,
                skip_taskbar: false,
                focused: true,
                visible: true,
                always_on_top: true,
                decorations: false,
                minimizable: false,
                maximizable: false,
                closable: false,
            },
        )
    } else if str_eq(label, "quicktool") {
        Some(
            QuickWindowConfig {
                label: "quicktool",
                title: "Quick Tool",
                url: "/quicktool",
                width: QUICKTOOL_WIDTH,
                height: QUICKTOOL_HEIGHT,
                resizable: false,
                skip_taskbar: true,
                focused: true,
                visible: true,
                always_on_top: true,
                decorations: false,
                minimizable: false,
                maximizable: false,
                closable: false,
            },
        )
    } else {
        None
    }
}

} // verus!
