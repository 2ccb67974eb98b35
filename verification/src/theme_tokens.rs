//! Responsive theme tokens: `$name` values whose length or shadow token is
//! defined with more than one breakpoint level.
use vstd::prelude::*;
use crate::class_map::lookup;
use crate::state::CssState;
use crate::str_map::StrMap;
use crate::text::{chars_of, string_of};

verus! {

/// The levels of token `t`: from the length tokens, else from the shadow
/// tokens.
pub open spec fn token_entry(st: CssState, t: Seq<char>) -> Option<Seq<u8>> {
    match lookup(st.length_tokens@, t) {
        Some(v) => Some(v@),
        None => match lookup(st.shadow_tokens@, t) {
            Some(v) => Some(v@),
            None => None,
        },
    }
}

/// The responsive levels of `value`: it names a token as `$token`, and the
/// token has more than one level.
pub open spec fn responsive_levels(st: CssState, value: Seq<char>) -> Option<Seq<u8>> {
    if value.len() > 0 && value[0] == '$' {
        match token_entry(st, value.drop_first()) {
            Some(levels) => if levels.len() > 1 {
                Some(levels)
            } else {
                None
            },
            None => None,
        }
    } else {
        None
    }
}

/// Replace the length and shadow token tables.
pub fn set_theme_token_levels(st: &mut CssState, length: StrMap<Vec<u8>>, shadow: StrMap<Vec<u8>>)
    requires
        old(st).wf(),
        length.wf(),
        shadow.wf(),
    ensures
        final(st).wf(),
        *final(st) == (CssState { length_tokens: length, shadow_tokens: shadow, ..*old(st) }),
{
    st.length_tokens = length;
    st.shadow_tokens = shadow;
}

fn copy_levels(v: &Vec<u8>) -> (r: Vec<u8>)
    ensures
        r@ == v@,
{
    let mut r: Vec<u8> = Vec::new();
    let mut i: usize = 0;
    while i < v.len()
        invariant
            i <= v@.len(),
            r@ == v@.take(i as int),
        decreases v@.len() - i,
    {
        r.push(v[i]);
        proof {
            assert(v@.take(i + 1) == v@.take(i as int).push(v@[i as int]));
        }
        i = i + 1;
    }
    assert(v@.take(i as int) == v@);
    r
}

fn token_levels<'a>(st: &'a CssState, value: &str) -> (r: Option<&'a Vec<u8>>)
    ensures
        match r {
            Some(v) => value@.len() > 0 && value@[0] == '$' && token_entry(*st, value@.drop_first()) == Some(v@),
            None => !(value@.len() > 0 && value@[0] == '$') || token_entry(*st, value@.drop_first()).is_none(),
        },
{
    let v = chars_of(value);
    if v.len() == 0 || v[0] != '$' {
        return None;
    }
    let token = string_of(&v, 1, v.len());
    assert(token@ == value@.drop_first());
    match st.length_tokens.get(token.as_str()) {
        Some(levels) => Some(levels),
        None => st.shadow_tokens.get(token.as_str()),
    }
}

/// The breakpoint levels of a `$token` defined with more than one level, in
/// either the length or the shadow table.
pub fn get_responsive_theme_token(st: &CssState, value: &str) -> (r: Option<Vec<u8>>)
    ensures
        match r {
            Some(v) => responsive_levels(*st, value@) == Some(v@),
            None => responsive_levels(*st, value@).is_none(),
        },
{
    match token_levels(st, value) {
        Some(levels) => if levels.len() > 1 {
            Some(copy_levels(levels))
        } else {
            None
        },
        None => None,
    }
}

/// Whether `value` is a `$token` defined with more than one level.
pub fn is_responsive_theme_token(st: &CssState, value: &str) -> (r: bool)
    ensures
        r == responsive_levels(*st, value@).is_some(),
{
    match token_levels(st, value) {
        Some(levels) => levels.len() > 1,
        None => false,
    }
}

} // verus!
