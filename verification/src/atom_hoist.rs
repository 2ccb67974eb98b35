//! The atom-hoist threshold: a style atom used by at least this many distinct
//! routes is emitted once into the shared stylesheet instead of into every
//! route's chunk. Zero disables hoisting.
use vstd::prelude::*;
use crate::state::CssState;

verus! {

/// The value stored for a requested threshold (`None` is stored as zero).
pub open spec fn stored_threshold(threshold: Option<usize>) -> usize {
    match threshold {
        Some(t) => t,
        None => 0,
    }
}

/// The threshold a state reports: `None` when zero is stored.
pub open spec fn threshold_of(st: CssState) -> Option<usize> {
    if st.atom_hoist == 0 {
        None
    } else {
        Some(st.atom_hoist)
    }
}

/// Set the threshold; `None` (or zero) disables hoisting.
pub fn set_atom_hoist(st: &mut CssState, threshold: Option<usize>)
    ensures
        *final(st) == (CssState { atom_hoist: stored_threshold(threshold), ..*old(st) }),
{
    st.atom_hoist = match threshold {
        Some(t) => t,
        None => 0,
    };
}

/// The threshold, or `None` when hoisting is disabled.
pub fn atom_hoist_threshold(st: &CssState) -> (r: Option<usize>)
    ensures
        r == threshold_of(*st),
{
    if st.atom_hoist == 0 {
        None
    } else {
        Some(st.atom_hoist)
    }
}

/// Whether hoisting is enabled.
pub fn is_atom_hoist(st: &CssState) -> (r: bool)
    ensures
        r == threshold_of(*st).is_some(),
{
    st.atom_hoist != 0
}

/// Reading the threshold back after setting it gives what was set, except
/// that zero reads as disabled; hoisting is on exactly when a nonzero
/// threshold was set.
pub proof fn law_atom_hoist_roundtrip(st: CssState, threshold: Option<usize>)
    ensures
        ({
            let after = CssState { atom_hoist: stored_threshold(threshold), ..st };
            &&& threshold_of(after) == (match threshold {
                Some(t) => if t == 0 { None } else { Some(t) },
                None => None::<usize>,
            })
            &&& threshold_of(after).is_some() == (threshold matches Some(t) && t != 0)
        }),
{
}

} // verus!
