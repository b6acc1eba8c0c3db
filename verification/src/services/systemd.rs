//! Systemd unit files: the closed set of unit states, reading a state from
//! its wire word, and deriving a unit's short name from its file path.

use vstd::prelude::*;
use vstd::string::*;

use crate::text::{
    after_last_char, find_after_last_char, find_char_from, first_char_from, lemma_after_last_char,
    lemma_first_char_from, replace_str, spec_replace, str_eq,
};

verus! {

/// A unit file together with its state.
pub struct SystemdUnit {
    pub name: String,
    pub state: UnitState,
}

/// The enablement state a systemd unit file can report.
#[derive(Clone, Copy, Debug, PartialEq, Eq, Structural)]
pub enum UnitState {
    Bad,
    Disabled,
    Enabled,
    EnabledRuntime,
    Generated,
    Indirect,
    Linked,
    LinkedRuntime,
    Masked,
    MaskedRuntime,
    Static,
    Transient,
}

/// The state a wire word denotes, if any.
pub open spec fn spec_unit_state(s: Seq<char>) -> Option<UnitState> {
    if s == "static"@ {
        Some(UnitState::Static)
    } else if s == "disabled"@ {
        Some(UnitState::Disabled)
    } else if s == "enabled"@ {
        Some(UnitState::Enabled)
    } else if s == "enabled-runtime"@ {
        Some(UnitState::EnabledRuntime)
    } else if s == "indirect"@ {
        Some(UnitState::Indirect)
    } else if s == "linked"@ {
        Some(UnitState::Linked)
    } else if s == "linked-runtime"@ {
        Some(UnitState::LinkedRuntime)
    } else if s == "masked"@ {
        Some(UnitState::Masked)
    } else if s == "masked-runtime"@ {
        Some(UnitState::MaskedRuntime)
    } else if s == "bad"@ {
        Some(UnitState::Bad)
    } else if s == "generated"@ {
        Some(UnitState::Generated)
    } else if s == "transient"@ {
        Some(UnitState::Transient)
    } else {
        None
    }
}

impl UnitState {
    /// Whether a wire word names a known unit state.
    pub fn is_known(x: &str) -> (r: bool)
        ensures
            r == spec_unit_state(x@).is_some(),
    {
        str_eq(x, "static") || str_eq(x, "disabled") || str_eq(x, "enabled") || str_eq(
            x,
            "enabled-runtime",
        ) || str_eq(x, "indirect") || str_eq(x, "linked") || str_eq(x, "linked-runtime") || str_eq(
            x,
            "masked",
        ) || str_eq(x, "masked-runtime") || str_eq(x, "bad") || str_eq(x, "generated") || str_eq(
            x,
            "transient",
        )
    }

    /// Reads a unit state from its wire word; the word must be known.
    pub fn new(x: &str) -> (r: UnitState)
        requires
            spec_unit_state(x@).is_some(),
        ensures
            Some(r) == spec_unit_state(x@),
    {
        if str_eq(x, "static") {
            UnitState::Static
        } else if str_eq(x, "disabled") {
            UnitState::Disabled
        } else if str_eq(x, "enabled") {
            UnitState::Enabled
        } else if str_eq(x, "enabled-runtime") {
            UnitState::EnabledRuntime
        } else if str_eq(x, "indirect") {
            UnitState::Indirect
        } else if str_eq(x, "linked") {
            UnitState::Linked
        } else if str_eq(x, "linked-runtime") {
            UnitState::LinkedRuntime
        } else if str_eq(x, "masked") {
            UnitState::Masked
        } else if str_eq(x, "masked-runtime") {
            UnitState::MaskedRuntime
        } else if str_eq(x, "bad") {
            UnitState::Bad
        } else if str_eq(x, "generated") {
            UnitState::Generated
        } else {
            UnitState::Transient
        }
    }
}

/// The short unit name a unit file path denotes: the text after the last
/// slash, cut at the first dot, with every `@` removed.
pub open spec fn spec_unit_name(path: Seq<char>) -> Seq<char> {
    let t = path.skip(after_last_char(path, '/') as int);
    spec_replace(t.take(first_char_from(t, '.', 0) as int), "@"@, ""@)
}

/// Derives a unit's short name from its unit file path.
pub fn unit_name_from_path(path: &str) -> (r: String)
    ensures
        r@ == spec_unit_name(path@),
{
    let n: usize = path.unicode_len();
    let start: usize = find_after_last_char(path, '/');
    proof {
        lemma_after_last_char(path@, '/');
    }
    let tail: &str = path.substring_char(start, n);
    let dot: usize = find_char_from(tail, '.', 0);
    proof {
        lemma_first_char_from(tail@, '.', 0);
        assert(tail@.subrange(0, dot as int) =~= tail@.take(dot as int));
        reveal_strlit("@");
        assert("@"@.len() == 1);
    }
    let stem: &str = tail.substring_char(0, dot);
    replace_str(stem, "@", "")
}

} // verus!
