//! The decision taken on the picker's outcome.
//!
//! The interactive picker hands back either one selected display name
//! or a cancellation. The decision from there is pure: a cancellation
//! takes the no-selection path and nothing is spawned; a selected name
//! that the registry holds launches that entry's command; a selected
//! name the registry does not hold (guarded against defensively, though
//! a picker fed from the registry cannot produce one) launches nothing.

use vstd::prelude::*;

use crate::registry::Registry;
use crate::text::copy_bytes;

verus! {

/// What the launcher does after the picker returns.
pub enum Action {
    /// Spawn this launch command, detached.
    Launch(Vec<u8>),
    /// A name was selected but no entry is held under it: spawn nothing.
    NoCmd,
    /// The picker was cancelled: spawn nothing.
    NoSelection,
}

/// Decides what to do for the picker's outcome `selection` against the
/// entries held in `reg`.
pub fn decide(reg: &Registry, selection: Option<Vec<u8>>) -> (r: Action)
    requires
        reg.wf(),
    ensures
        match selection {
            None => r == Action::NoSelection,
            Some(n) => {
                if reg.contains_name(n@) {
                    r matches Action::Launch(c) && c@ == reg.command_of(n@)
                } else {
                    r == Action::NoCmd
                }
            },
        },
{
    match selection {
        None => Action::NoSelection,
        Some(n) => match reg.get(&n) {
            Some(c) => Action::Launch(copy_bytes(c)),
            None => Action::NoCmd,
        },
    }
}

} // verus!
