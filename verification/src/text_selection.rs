//! Text-Selection Trigger state and the capture flow's decisions.
//!
//! A bare modifier plus the backquote key can be used to grab the text the
//! user currently has selected.  This module owns the little piece of state
//! that says whether the trigger is armed and for which modifier, derives the
//! shortcut the host must bind for it, and decides what the capture flow does
//! once the host has reported the selected text and the quick-tool window's
//! state.  Reading the selection, clipboard work and window placement belong
//! to the host.

use vstd::prelude::*;
use crate::errors::DispatchError;
use crate::normalize::norm_spec;
use crate::normalize::str_eq;
use crate::registry::ShortcutRegistry;
use crate::registry::register_shortcut_command;
use crate::window::VisibilityQuery;

verus! {

/// Whether the selection trigger is armed, and for which modifier
/// (`"ctrl"`, `"shift"` or `"alt"`).
pub struct TextSelectionMonitor {
    pub enabled: bool,
    pub trigger_modifier: String,
}

impl TextSelectionMonitor {
    /// Monitoring starts disarmed, with the control modifier preselected.
    pub fn new() -> (r: TextSelectionMonitor)
        ensures
            !r.enabled,
            r.trigger_modifier@ == "ctrl"@,
    {
        TextSelectionMonitor { enabled: false, trigger_modifier: "ctrl".to_owned() }
    }
}

/// Whether the capture path may run for a press of the given modifier: only
/// when monitoring is armed, and only for the armed modifier.
pub fn is_text_selection_enabled_for(monitor: &TextSelectionMonitor, modifier: &str) -> (r: bool)
    ensures
        r == (monitor.enabled && monitor.trigger_modifier@ == modifier@),
{
    monitor.enabled && str_eq(monitor.trigger_modifier.as_str(), modifier)
}

/// The shortcut spelling the host binds for a trigger modifier; an unknown
/// modifier falls back to the control spelling.
pub open spec fn trigger_shortcut_spec(m: Seq<char>) -> Seq<char> {
    if m == "shift"@ {
        "Shift+Backquote"@
    } else if m == "alt"@ {
        "Alt+Backquote"@
    } else {
        "Control+Backquote"@
    }
}

/// The OS-level shortcut that arms the trigger for a modifier.
pub fn trigger_shortcut_for(modifier: &str) -> (r: &'static str)
    ensures
        r@ == trigger_shortcut_spec(modifier@),
{
    if str_eq(modifier, "shift") {
        "Shift+Backquote"
    } else if str_eq(modifier, "alt") {
        "Alt+Backquote"
    } else {
        "Control+Backquote"
    }
}

/// Record the outcome of arming or disarming selection monitoring.
///
/// Arming stores the modifier and, when the host managed to bind the trigger
/// shortcut, remembers the trigger binding in the registry so dispatch can
/// resolve it; a bind the host refused is reported and leaves the registry
/// alone.  Disarming only clears the armed flag: the host unbinds the
/// trigger shortcut (derived from the stored modifier) on its own, and a
/// failed unbind is tolerated.
pub fn setup_text_selection_monitoring(
    monitor: &mut TextSelectionMonitor,
    registry: &mut ShortcutRegistry,
    enabled: bool,
    trigger_modifier: String,
    os_bind_ok: bool,
) -> (r: Result<(), DispatchError>)
    requires
        old(registry).wf(),
    ensures
        final(registry).wf(),
        final(monitor).enabled == enabled,
        enabled ==> final(monitor).trigger_modifier == trigger_modifier,
        !enabled ==> final(monitor).trigger_modifier == old(monitor).trigger_modifier,
        enabled && os_bind_ok ==> r is Ok && final(registry).as_map() == old(
            registry,
        ).as_map().insert(
            norm_spec(trigger_shortcut_spec(trigger_modifier@)),
            "text-selection"@,
        ),
        enabled && !os_bind_ok ==> r == Result::<(), DispatchError>::Err(
            DispatchError::OsRegistrationFailed,
        ) && final(registry).as_map() == old(registry).as_map(),
        !enabled ==> r is Ok && final(registry).as_map() == old(registry).as_map(),
{
    if enabled {
        monitor.enabled = true;
        let shortcut = trigger_shortcut_for(trigger_modifier.as_str());
        monitor.trigger_modifier = trigger_modifier;
        if !os_bind_ok {
            return Err(DispatchError::OsRegistrationFailed);
        }
        register_shortcut_command(registry, shortcut.to_owned(), "text-selection".to_owned());
        Ok(())
    } else {
        monitor.enabled = false;
        Ok(())
    }
}

/// What the capture flow sends to the application layer once text is in hand.
pub struct TextSelectionEvent {
    pub text: String,
    pub x: i32,
    pub y: i32,
    pub modifier_pressed: bool,
    pub modifier: String,
}

/// The event the capture flow emits for a grabbed piece of text at the
/// cursor position.
pub fn make_selection_event(text: String, x: i32, y: i32) -> (r: TextSelectionEvent)
    ensures
        r.text == text,
        r.x == x,
        r.y == y,
        r.modifier_pressed,
        r.modifier@ == "shortcut"@,
{
    TextSelectionEvent { text, x, y, modifier_pressed: true, modifier: "shortcut".to_owned() }
}

/// Whether grabbed text is worth showing: non-empty, and more than one
/// character once white space is ignored.  Text that trims to nothing or to
/// a single character is skipped.  Characters are counted, not bytes, so one
/// multi-byte character (an accented letter on its own) is still a
/// single-character selection and is skipped.
pub open spec fn selection_text_ok_spec(t: Seq<char>) -> bool {
    t.len() > 0 && t.filter(|c: char| !is_blank(c)).len() > 1
}

/// A character the capture flow does not count: the Unicode white-space
/// characters, the set `str::trim` discards.
pub open spec fn is_blank(c: char) -> bool {
    ||| c as u32 == 0x09
    ||| c as u32 == 0x0A
    ||| c as u32 == 0x0B
    ||| c as u32 == 0x0C
    ||| c as u32 == 0x0D
    ||| c as u32 == 0x20
    ||| c as u32 == 0x85
    ||| c as u32 == 0xA0
    ||| c as u32 == 0x1680
    ||| (0x2000 <= c as u32 && c as u32 <= 0x200A)
    ||| c as u32 == 0x2028
    ||| c as u32 == 0x2029
    ||| c as u32 == 0x202F
    ||| c as u32 == 0x205F
    ||| c as u32 == 0x3000
}

/// Whether the capture flow counts a character, executably.
fn is_blank_exec(c: char) -> (r: bool)
    ensures
        r == is_blank(c),
{
    let n = c as u32;
    n == 0x09 || n == 0x0A || n == 0x0B || n == 0x0C || n == 0x0D || n == 0x20 || n == 0x85 || n
        == 0xA0 || n == 0x1680 || (0x2000 <= n && n <= 0x200A) || n == 0x2028 || n == 0x2029 || n
        == 0x202F || n == 0x205F || n == 0x3000
}

/// Decide whether grabbed text is worth showing.
pub fn selection_text_ok(text: &str) -> (r: bool)
    ensures
        r == selection_text_ok_spec(text@),
{
    let n = text.unicode_len();
    if n == 0 {
        proof {
            assert(!selection_text_ok_spec(text@));
        }
        return false;
    }
    let mut solid: usize = 0;
    let mut i: usize = 0;
    while i < n
        invariant
            n == text@.len(),
            0 <= i <= n,
            solid == text@.subrange(0, i as int).filter(|c: char| !is_blank(c)).len(),
            solid <= i,
        decreases n - i,
    {
        let c = text.get_char(i);
        proof {
            assert(text@.subrange(0, i as int).push(c) =~= text@.subrange(0, i + 1));
            lemma_filter_push(text@.subrange(0, i as int), c);
        }
        if !is_blank_exec(c) {
            solid = solid + 1;
        }
        i = i + 1;
    }
    proof {
        assert(text@.subrange(0, n as int) =~= text@);
    }
    solid > 1
}

/// Filtering after appending one element keeps or drops just that element.
proof fn lemma_filter_push(s: Seq<char>, c: char)
    ensures
        !is_blank(c) ==> s.push(c).filter(|x: char| !is_blank(x)) == s.filter(
            |x: char| !is_blank(x),
        ).push(c),
        is_blank(c) ==> s.push(c).filter(|x: char| !is_blank(x)) == s.filter(
            |x: char| !is_blank(x),
        ),
{
    reveal_with_fuel(Seq::filter, 2);
    assert(s.push(c).drop_last() =~= s);
    assert(s.push(c).last() == c);
}

/// What the capture flow asks the host to do after text was grabbed.
#[derive(Clone, Copy, PartialEq, Eq, Structural, Debug)]
pub enum SelectionOutcome {
    /// The text was empty or too short: do nothing.
    Skip,
    /// The quick-tool window is already showing: hide it and send nothing.
    HideTool,
    /// Show (or create) the quick-tool window at the cursor and send the
    /// grabbed text to it.
    ShowToolAndNotify,
}

/// Decide the capture flow from the grabbed text and the quick-tool window's
/// observed state.  A window whose visibility the host cannot determine is
/// re-created and shown: the flow fails open toward showing the tool.
pub fn selection_flow_step(text_ok: bool, exists: bool, vis: VisibilityQuery) -> (r:
    SelectionOutcome)
    ensures
        !text_ok ==> r == SelectionOutcome::Skip,
        text_ok && exists && vis == VisibilityQuery::SeenVisible ==> r
            == SelectionOutcome::HideTool,
        text_ok && !(exists && vis == VisibilityQuery::SeenVisible) ==> r
            == SelectionOutcome::ShowToolAndNotify,
{
    if !text_ok {
        SelectionOutcome::Skip
    } else if exists {
        match vis {
            VisibilityQuery::SeenVisible => SelectionOutcome::HideTool,
            _ => SelectionOutcome::ShowToolAndNotify,
        }
    } else {
        SelectionOutcome::ShowToolAndNotify
    }
}

} // verus!
