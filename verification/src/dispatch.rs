//! Dispatch Handler: the single decision taken on every global shortcut
//! press.
//!
//! Resolution order, first match wins: the text-selection fast path (a
//! control, shift or alt modifier together with the backquote key while
//! monitoring is armed for that modifier), then an exact lookup of the
//! normalized combination in the registry, then an equivalence-based lookup
//! over every entry, and otherwise no action.  A release event never acts,
//! and an entry naming a command this subsystem does not know is logged and
//! ignored rather than refused, so the registry stays forward-compatible.

use vstd::prelude::*;
use crate::normalize::alt_tok;
use crate::normalize::canon_tokens;
use crate::normalize::canon_tokens_of;
use crate::normalize::chars_eq;
use crate::normalize::control_tok;
use crate::normalize::control_vec;
use crate::normalize::norm_spec;
use crate::normalize::normalize;
use crate::normalize::shift_tok;
use crate::normalize::str_eq;
use crate::normalize::toks_view;
use crate::registry::ShortcutRegistry;
use crate::registry::fuzzy_find;
use crate::text_selection::TextSelectionMonitor;
use crate::text_selection::is_text_selection_enabled_for;

verus! {

/// Whether the host reported the key combination going down or up.
#[derive(Clone, Copy, PartialEq, Eq, Structural, Debug)]
pub enum PressState {
    Pressed,
    Released,
}

/// The logical command a registry entry names, parsed from its stored text.
pub enum Command {
    QuickNote,
    QuickAi,
    QuickTool,
    TextSelection,
    /// A command this subsystem does not know; kept so dispatch can log it.
    Unknown(String),
}

/// Which `Command` a stored command name parses to.
pub open spec fn parses_to(n: Seq<char>, c: Command) -> bool {
    match c {
        Command::QuickNote => n == "quicknote"@,
        Command::QuickAi => n == "quickai"@,
        Command::QuickTool => n == "quicktool"@,
        Command::TextSelection => n == "text-selection"@,
        Command::Unknown(s) => s@ == n && n != "quicknote"@ && n != "quickai"@ && n != "quicktool"@
            && n != "text-selection"@,
    }
}

/// Parse a stored command name into the closed command vocabulary.
pub fn parse_command(name: &str) -> (c: Command)
    ensures
        parses_to(name@, c),
{
    if str_eq(name, "quicknote") {
        Command::QuickNote
    } else if str_eq(name, "quickai") {
        Command::QuickAi
    } else if str_eq(name, "quicktool") {
        Command::QuickTool
    } else if str_eq(name, "text-selection") {
        Command::TextSelection
    } else {
        Command::Unknown(name.to_owned())
    }
}

/// What dispatch asks the application to do for one press.
pub enum DispatchAction {
    /// Toggle the quick-note window.
    ToggleQuickNote,
    /// Toggle the quick-AI window.
    ToggleQuickAi,
    /// Toggle the quick-tool window.
    ToggleQuickTool,
    /// Run the capture-selected-text flow.
    CaptureSelection,
    /// The named command is unknown: log it and do nothing else.
    LogUnknown(String),
    /// Nothing to do; an unmapped combination is a normal outcome.
    Ignore,
}

impl DispatchAction {
    /// Whether this action is the capture-selected-text flow.
    pub fn is_capture_selection(&self) -> (r: bool)
        ensures
            r == (*self == DispatchAction::CaptureSelection),
    {
        match self {
            DispatchAction::CaptureSelection => true,
            _ => false,
        }
    }

    /// Whether this action does nothing.
    pub fn is_ignore(&self) -> (r: bool)
        ensures
            r == (*self == DispatchAction::Ignore),
    {
        match self {
            DispatchAction::Ignore => true,
            _ => false,
        }
    }
}

/// The action a command maps to.
pub fn command_action(c: Command) -> (a: DispatchAction)
    ensures
        c == Command::QuickNote ==> a == DispatchAction::ToggleQuickNote,
        c == Command::QuickAi ==> a == DispatchAction::ToggleQuickAi,
        c == Command::QuickTool ==> a == DispatchAction::ToggleQuickTool,
        c == Command::TextSelection ==> a == DispatchAction::CaptureSelection,
        forall|s: String| c == Command::Unknown(s) ==> a == DispatchAction::LogUnknown(s),
{
    match c {
        Command::QuickNote => DispatchAction::ToggleQuickNote,
        Command::QuickAi => DispatchAction::ToggleQuickAi,
        Command::QuickTool => DispatchAction::ToggleQuickTool,
        Command::TextSelection => DispatchAction::CaptureSelection,
        Command::Unknown(s) => DispatchAction::LogUnknown(s),
    }
}

/// The action dispatch takes for the stored command text `cmd`.
pub open spec fn action_for(cmd: Seq<char>, a: DispatchAction) -> bool {
    if cmd == "quicknote"@ {
        a == DispatchAction::ToggleQuickNote
    } else if cmd == "quickai"@ {
        a == DispatchAction::ToggleQuickAi
    } else if cmd == "quicktool"@ {
        a == DispatchAction::ToggleQuickTool
    } else if cmd == "text-selection"@ {
        a == DispatchAction::CaptureSelection
    } else {
        a matches DispatchAction::LogUnknown(m) && m@ == cmd
    }
}

/// The lower-cased spellings under which the backquote/grave key arrives
/// from the platform: the literal backtick, `backquote`, or `grave`.
pub open spec fn backquote_of(t: Seq<char>) -> bool {
    ||| t == seq!['`']
    ||| t == seq!['b', 'a', 'c', 'k', 'q', 'u', 'o', 't', 'e']
    ||| t == seq!['g', 'r', 'a', 'v', 'e']
}

/// The trigger modifier a pressed combination offers for the selection fast
/// path: the first of control, shift, alt among its canonical modifiers,
/// provided its key is a backquote spelling.
pub open spec fn selection_candidate(s: Seq<char>) -> Option<Seq<char>> {
    let ts = canon_tokens_of(s);
    if !backquote_of(ts.last()) {
        Option::<Seq<char>>::None
    } else if ts.drop_last().contains(control_tok()) {
        Some("ctrl"@)
    } else if ts.drop_last().contains(shift_tok()) {
        Some("shift"@)
    } else if ts.drop_last().contains(alt_tok()) {
        Some("alt"@)
    } else {
        Option::<Seq<char>>::None
    }
}

/// Whether a press runs the selection fast path: it offers a trigger
/// modifier and monitoring is armed for exactly that modifier.
pub open spec fn selection_fires(s: Seq<char>, mon: TextSelectionMonitor) -> bool {
    match selection_candidate(s) {
        Some(m) => mon.enabled && mon.trigger_modifier@ == m,
        None => false,
    }
}

/// While monitoring is disarmed the fast path never runs, whatever is
/// pressed and whatever modifier is stored.
pub proof fn lemma_disarmed_never_captures(s: Seq<char>, mon: TextSelectionMonitor)
    requires
        !mon.enabled,
    ensures
        !selection_fires(s, mon),
{
}

/// The four known command names are pairwise distinct.
proof fn lemma_command_names_distinct()
    ensures
        "quicknote"@ != "quickai"@,
        "quicknote"@ != "quicktool"@,
        "quicknote"@ != "text-selection"@,
        "quickai"@ != "quicktool"@,
        "quickai"@ != "text-selection"@,
        "quicktool"@ != "text-selection"@,
{
    reveal_strlit("quicknote");
    reveal_strlit("quickai");
    reveal_strlit("quicktool");
    reveal_strlit("text-selection");
    assert("quicknote"@.len() == 9);
    assert("quickai"@.len() == 7);
    assert("quicktool"@.len() == 9);
    assert("text-selection"@.len() == 14);
    assert("quicknote"@[5] == 'n');
    assert("quicktool"@[5] == 't');
}

/// Everything dispatch promises about the action for one pressed spelling.
pub open spec fn dispatch_post(
    reg: ShortcutRegistry,
    mon: TextSelectionMonitor,
    s: Seq<char>,
    a: DispatchAction,
) -> bool {
    if selection_fires(s, mon) {
        a == DispatchAction::CaptureSelection
    } else if reg.as_map().contains_key(norm_spec(s)) {
        action_for(reg.as_map()[norm_spec(s)], a)
    } else {
        match fuzzy_find(reg.entries_view(), norm_spec(s)) {
            Some(cmd) => action_for(cmd, a),
            None => a == DispatchAction::Ignore,
        }
    }
}

/// The selection fast path outranks any registered command on the same
/// combination: whenever it fires, dispatch captures the selection, whatever
/// the registry maps that combination to.
pub proof fn lemma_selection_priority(
    reg: ShortcutRegistry,
    mon: TextSelectionMonitor,
    s: Seq<char>,
    a: DispatchAction,
)
    requires
        selection_fires(s, mon),
        dispatch_post(reg, mon, s, a),
    ensures
        a == DispatchAction::CaptureSelection,
{
}

/// Registration reaches dispatch: once a shortcut is successfully
/// registered, any later press that normalizes like the registered spelling
/// — even one the platform reports under a different raw spelling —
/// resolves to the registered command, unless the selection fast path
/// claims the combination.
pub proof fn lemma_registered_shortcut_dispatches(
    before: ShortcutRegistry,
    after: ShortcutRegistry,
    mon: TextSelectionMonitor,
    shortcut: Seq<char>,
    command: Seq<char>,
    pressed: Seq<char>,
    a: DispatchAction,
)
    requires
        after.as_map() == before.as_map().insert(norm_spec(shortcut), command),
        norm_spec(pressed) == norm_spec(shortcut),
        !selection_fires(pressed, mon),
        dispatch_post(after, mon, pressed, a),
    ensures
        action_for(command, a),
{
    assert(after.as_map().contains_key(norm_spec(pressed)));
    assert(after.as_map()[norm_spec(pressed)] == command);
}

/// Whether the modifier tokens (all but the last) contain the pattern.
fn contains_mod(toks: &Vec<Vec<char>>, pat: &Vec<char>) -> (r: bool)
    requires
        toks@.len() >= 1,
    ensures
        r == toks_view(toks@).drop_last().contains(pat@),
{
    let ghost mods = toks_view(toks@).drop_last();
    let mut i: usize = 0;
    while i < toks.len() - 1
        invariant
            toks@.len() >= 1,
            mods == toks_view(toks@).drop_last(),
            0 <= i <= mods.len(),
            forall|j: int| 0 <= j < i ==> #[trigger] mods[j] != pat@,
        decreases mods.len() - i,
    {
        if chars_eq(&toks[i], pat) {
            proof {
                assert(mods[i as int] == pat@);
            }
            return true;
        }
        i = i + 1;
    }
    proof {
        if mods.contains(pat@) {
            let j = choose|j: int| 0 <= j < mods.len() && mods[j] == pat@;
            assert(mods[j] != pat@);
        }
    }
    false
}

/// Whether a canonical key token is a spelling of the backquote key.
fn is_backquote_vec(t: &Vec<char>) -> (r: bool)
    ensures
        r == backquote_of(t@),
{
    if t.len() == 1 {
        let r = t[0] == '`';
        proof {
            if r {
                assert(t@ =~= seq!['`']);
            }
        }
        r
    } else if t.len() == 9 {
        let r = t[0] == 'b' && t[1] == 'a' && t[2] == 'c' && t[3] == 'k' && t[4] == 'q' && t[5]
            == 'u' && t[6] == 'o' && t[7] == 't' && t[8] == 'e';
        proof {
            if r {
                assert(t@ =~= seq!['b', 'a', 'c', 'k', 'q', 'u', 'o', 't', 'e']);
            }
        }
        r
    } else if t.len() == 5 {
        let r = t[0] == 'g' && t[1] == 'r' && t[2] == 'a' && t[3] == 'v' && t[4] == 'e';
        proof {
            if r {
                assert(t@ =~= seq!['g', 'r', 'a', 'v', 'e']);
            }
        }
        r
    } else {
        false
    }
}

/// A freshly built `shift` token.
fn shift_vec() -> (v: Vec<char>)
    ensures
        v@ == shift_tok(),
{
    let mut v: Vec<char> = Vec::new();
    v.push('s');
    v.push('h');
    v.push('i');
    v.push('f');
    v.push('t');
    proof {
        assert(v@ =~= shift_tok());
    }
    v
}

/// A freshly built `alt` token.
fn alt_vec() -> (v: Vec<char>)
    ensures
        v@ == alt_tok(),
{
    let mut v: Vec<char> = Vec::new();
    v.push('a');
    v.push('l');
    v.push('t');
    proof {
        assert(v@ =~= alt_tok());
    }
    v
}

/// Resolve one shortcut event to the action the application must perform.
///
/// Only a press acts; a release is ignored.  The selection fast path wins
/// over any registered command on the same keys; an exact lookup of the
/// normalized combination comes next, then the equivalence-based lookup,
/// and an unmapped combination is ignored.
pub fn dispatch_shortcut(
    registry: &ShortcutRegistry,
    monitor: &TextSelectionMonitor,
    pressed: &str,
    state: PressState,
) -> (a: DispatchAction)
    requires
        registry.wf(),
    ensures
        state == PressState::Released ==> a == DispatchAction::Ignore,
        state == PressState::Pressed ==> dispatch_post(*registry, *monitor, pressed@, a),
{
    match state {
        PressState::Released => DispatchAction::Ignore,
        PressState::Pressed => {
            let toks = canon_tokens(pressed);
            let fires: bool = if is_backquote_vec(&toks[toks.len() - 1]) {
                proof {
                    assert(toks_view(toks@).last() == canon_tokens_of(pressed@).last());
                }
                if contains_mod(&toks, &control_vec()) {
                    is_text_selection_enabled_for(monitor, "ctrl")
                } else if contains_mod(&toks, &shift_vec()) {
                    is_text_selection_enabled_for(monitor, "shift")
                } else if contains_mod(&toks, &alt_vec()) {
                    is_text_selection_enabled_for(monitor, "alt")
                } else {
                    false
                }
            } else {
                false
            };
            proof {
                assert(fires == selection_fires(pressed@, *monitor));
            }
            if fires {
                return DispatchAction::CaptureSelection;
            }
            let n = normalize(pressed);
            let cmd: Option<&String> = match registry.get(&n) {
                Some(c) => Some(c),
                None => registry.find_fuzzy(&n),
            };
            proof {
                lemma_command_names_distinct();
            }
            match cmd {
                Some(c) => command_action(parse_command(c.as_str())),
                None => DispatchAction::Ignore,
            }
        },
    }
}

} // verus!

