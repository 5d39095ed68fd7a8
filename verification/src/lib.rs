//! Input-dispatch layer for a desktop note-taking application.
//!
//! The library registers global keyboard shortcuts, maps each one to a
//! logical command, and routes shortcut-press events to the correct action:
//! toggling an auxiliary window or triggering a "capture selected text"
//! flow.  Everything here is pure, in-memory logic with verified contracts;
//! the surrounding application performs the actual OS calls (binding a
//! shortcut, showing a window) and feeds their outcomes back in.

pub mod color;
pub mod dispatch;
pub mod errors;
pub mod hotkey;
pub mod normalize;
pub mod registry;
pub mod text_selection;
pub mod window;
