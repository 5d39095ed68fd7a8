//! Registration Service: validating a shortcut spelling and keeping the
//! registry consistent with the OS-level binding the host performs.
//!
//! The host owns the actual global-shortcut facility.  The application first
//! validates a spelling here, then asks the host to bind or unbind it, and
//! finally commits the outcome: the commit functions take the host's answer
//! and update the registry accordingly.  An unregister clears the local
//! entry even when the OS call failed, so a stale binding can never shadow
//! dispatch decisions.

use vstd::prelude::*;
use crate::errors::DispatchError;
use crate::normalize::alt_tok;
use crate::normalize::canon_tokens;
use crate::normalize::canon_tokens_of;
use crate::normalize::chars_eq;
use crate::normalize::control_vec;
use crate::normalize::control_tok;
use crate::normalize::norm_spec;
use crate::normalize::normalize;
use crate::normalize::shift_tok;
use crate::normalize::toks_view;
use crate::registry::ShortcutRegistry;

verus! {

/// The default shortcut configuration the application starts from.
pub struct HotkeyConfig {
    pub quick_note: String,
    pub quick_ai: String,
    pub enabled: bool,
    pub ai_enabled: bool,
    pub system_tray_enabled: bool,
    pub window_behavior: String,
}

impl Default for HotkeyConfig {
    /// Quick note on `Shift+Space`, quick AI on `Alt+Space`, everything
    /// enabled, and windows shown rather than started hidden.
    fn default() -> (r: HotkeyConfig)
        ensures
            r.quick_note@ == "Shift+Space"@,
            r.quick_ai@ == "Alt+Space"@,
            r.enabled,
            r.ai_enabled,
            r.system_tray_enabled,
            r.window_behavior@ == "show"@,
    {
        HotkeyConfig {
            quick_note: "Shift+Space".to_owned(),
            quick_ai: "Alt+Space".to_owned(),
            enabled: true,
            ai_enabled: true,
            system_tray_enabled: true,
            window_behavior: "show".to_owned(),
        }
    }
}

/// A canonical token that names a modifier this subsystem knows.
pub open spec fn modifier_tok(t: Seq<char>) -> bool {
    t == control_tok() || t == shift_tok() || t == alt_tok()
}

/// A well-formed shortcut spelling: every canonical token before the last
/// is a known modifier, and the last is a non-empty key that is not itself
/// a modifier.  The empty string and a trailing `+` have no key token and
/// are malformed.
pub open spec fn valid_shortcut(s: Seq<char>) -> bool {
    let ts = canon_tokens_of(s);
    &&& ts.last().len() > 0
    &&& !modifier_tok(ts.last())
    &&& forall|i: int| 0 <= i < ts.len() - 1 ==> modifier_tok(#[trigger] ts[i])
}

/// A freshly built `shift` token.
fn shift_vec() -> (v: Vec<char>)
    ensures
        v@ == shift_tok(),
{
    let mut v: Vec<char> = Vec::new();
    v.push('s');
    v.push('h');
    v.push('i');
    v.push('f');
    v.push('t');
    proof {
        assert(v@ =~= shift_tok());
    }
    v
}

/// A freshly built `alt` token.
fn alt_vec() -> (v: Vec<char>)
    ensures
        v@ == alt_tok(),
{
    let mut v: Vec<char> = Vec::new();
    v.push('a');
    v.push('l');
    v.push('t');
    proof {
        assert(v@ =~= alt_tok());
    }
    v
}

/// Whether a canonical token is a known modifier.
fn is_modifier_vec(t: &Vec<char>) -> (r: bool)
    ensures
        r == modifier_tok(t@),
{
    if chars_eq(t, &control_vec()) {
        true
    } else if chars_eq(t, &shift_vec()) {
        true
    } else {
        chars_eq(t, &alt_vec())
    }
}

/// Check that a spelling parses into a validated key combination.
pub fn validate_shortcut(shortcut: &str) -> (r: bool)
    ensures
        r == valid_shortcut(shortcut@),
{
    let toks = canon_tokens(shortcut);
    let ghost ts = canon_tokens_of(shortcut@);
    let last = toks.len() - 1;
    proof {
        assert(ts.len() == toks@.len());
        assert(toks_view(toks@)[last as int] == toks@[last as int]@);
        assert(ts.last() == toks@[last as int]@);
    }
    if toks[last].len() == 0 {
        proof {
            assert(ts.last().len() == 0);
        }
        return false;
    }
    if is_modifier_vec(&toks[last]) {
        proof {
            assert(modifier_tok(ts.last()));
        }
        return false;
    }
    let mut i: usize = 0;
    while i < last
        invariant
            toks@.len() >= 1,
            last == toks@.len() - 1,
            ts == toks_view(toks@),
            ts == canon_tokens_of(shortcut@),
            0 <= i <= last,
            forall|j: int| 0 <= j < i ==> modifier_tok(#[trigger] ts[j]),
        decreases last - i,
    {
        if !is_modifier_vec(&toks[i]) {
            proof {
                assert(toks_view(toks@)[i as int] == toks@[i as int]@);
                assert(!modifier_tok(ts[i as int]));
                assert(0 <= i < ts.len() - 1);
                assert(!valid_shortcut(shortcut@)) by {
                    if valid_shortcut(shortcut@) {
                        assert(modifier_tok(canon_tokens_of(shortcut@)[i as int]));
                    }
                }
            }
            return false;
        }
        proof {
            assert(toks_view(toks@)[i as int] == toks@[i as int]@);
            assert(modifier_tok(ts[i as int]));
        }
        i = i + 1;
    }
    proof {
        assert(ts.last().len() > 0);
        assert(!modifier_tok(ts.last()));
    }
    true
}

/// Commit a registration once the host has answered.
///
/// A malformed spelling is refused before any OS work, so `os_bind_ok` is
/// ignored for it.  A refused bind leaves the registry untouched.  On
/// success the normalized spelling maps to the command, overwriting any
/// earlier command on the same combination: registering twice is not an
/// error, the last write wins.
pub fn register_hotkey_commit(
    registry: &mut ShortcutRegistry,
    shortcut: &str,
    command: String,
    os_bind_ok: bool,
) -> (r: Result<(), DispatchError>)
    requires
        old(registry).wf(),
    ensures
        final(registry).wf(),
        !valid_shortcut(shortcut@) ==> r == Result::<(), DispatchError>::Err(
            DispatchError::InvalidShortcutFormat,
        ) && final(registry).as_map() == old(registry).as_map(),
        valid_shortcut(shortcut@) && !os_bind_ok ==> r == Result::<(), DispatchError>::Err(
            DispatchError::OsRegistrationFailed,
        ) && final(registry).as_map() == old(registry).as_map(),
        valid_shortcut(shortcut@) && os_bind_ok ==> r is Ok && final(registry).as_map() == old(
            registry,
        ).as_map().insert(norm_spec(shortcut@), command@),
{
    if !validate_shortcut(shortcut) {
        return Err(DispatchError::InvalidShortcutFormat);
    }
    if !os_bind_ok {
        return Err(DispatchError::OsRegistrationFailed);
    }
    let key = normalize(shortcut);
    registry.insert(key, command);
    Ok(())
}

/// Commit an unregistration once the host has answered.
///
/// A malformed spelling is refused and changes nothing.  For a well-formed
/// one the local entry is removed whether or not the OS unbind succeeded —
/// the registry must not keep a stale binding — and a refused unbind is
/// still reported to the caller.
pub fn unregister_hotkey_commit(
    registry: &mut ShortcutRegistry,
    shortcut: &str,
    os_unbind_ok: bool,
) -> (r: Result<(), DispatchError>)
    requires
        old(registry).wf(),
    ensures
        final(registry).wf(),
        !valid_shortcut(shortcut@) ==> r == Result::<(), DispatchError>::Err(
            DispatchError::InvalidShortcutFormat,
        ) && final(registry).as_map() == old(registry).as_map(),
        valid_shortcut(shortcut@) ==> final(registry).as_map() == old(registry).as_map().remove(
            norm_spec(shortcut@),
        ),
        valid_shortcut(shortcut@) && os_unbind_ok ==> r is Ok,
        valid_shortcut(shortcut@) && !os_unbind_ok ==> r == Result::<(), DispatchError>::Err(
            DispatchError::OsRegistrationFailed,
        ),
{
    if !validate_shortcut(shortcut) {
        return Err(DispatchError::InvalidShortcutFormat);
    }
    let key = normalize(shortcut);
    registry.remove(&key);
    if os_unbind_ok {
        Ok(())
    } else {
        Err(DispatchError::OsRegistrationFailed)
    }
}

} // verus!
