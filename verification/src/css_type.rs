//! The two style-sheet helpers a template can be tagged with.
use vstd::prelude::*;
use crate::text::str_eq;

verus! {

/// `css` or `globalCss`.
#[derive(Debug, PartialEq, Eq, Structural, Clone, Copy)]
pub enum CssType {
    Css,
    GlobalCss,
}

impl TryFrom<String> for CssType {
    type Error = String;

    /// The helper named `value`; any other name is handed back as the error.
    fn try_from(value: String) -> (r: Result<Self, Self::Error>) {
        if str_eq(value.as_str(), "css") {
            Ok(CssType::Css)
        } else if str_eq(value.as_str(), "globalCss") {
            Ok(CssType::GlobalCss)
        } else {
            Err(value)
        }
    }
}

impl vstd::std_specs::convert::TryFromSpecImpl<String> for CssType {
    open spec fn obeys_try_from_spec() -> bool {
        true
    }

    open spec fn try_from_spec(v: String) -> Result<Self, String> {
        if v@ == "css"@ {
            Ok(CssType::Css)
        } else if v@ == "globalCss"@ {
            Ok(CssType::GlobalCss)
        } else {
            Err(v)
        }
    }
}

} // verus!
