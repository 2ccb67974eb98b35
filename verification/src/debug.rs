//! Debug mode: readable class and variable names.
use vstd::prelude::*;
use crate::state::CssState;

verus! {

/// Turn debug naming on or off.
pub fn set_debug(st: &mut CssState, value: bool)
    ensures
        *final(st) == (CssState { debug: value, ..*old(st) }),
{
    st.debug = value;
}

/// Whether debug naming is on.
pub fn is_debug(st: &CssState) -> (r: bool)
    ensures
        r == st.debug,
{
    st.debug
}

} // verus!
