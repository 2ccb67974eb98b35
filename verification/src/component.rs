//! The components the library exports (`Box`, `Flex`, `VStack`, ...): the
//! element each renders and the base styles it brings.
use vstd::prelude::*;
use crate::extract_style::{
    ExtractStaticStyle, ExtractStyleValue, StaticStyleView, StyleValueView, ThemeTokenResolution,
};
use crate::text::str_eq;

verus! {

/// An exported component.
#[derive(Debug, PartialEq, Eq, Structural, Clone, Copy)]
pub enum ExportVariableKind {
    Box,
    Text,
    Button,
    Input,
    Flex,
    VStack,
    Center,
    Image,
}

/// The tag a component renders.
pub open spec fn tag_of(k: ExportVariableKind) -> Seq<char> {
    match k {
        ExportVariableKind::Center | ExportVariableKind::VStack | ExportVariableKind::Flex
        | ExportVariableKind::Box => "div"@,
        ExportVariableKind::Text => "span"@,
        ExportVariableKind::Image => "img"@,
        ExportVariableKind::Button => "button"@,
        ExportVariableKind::Input => "input"@,
    }
}

/// A base style: property and value at level 0, no selector.
pub open spec fn base_style(property: Seq<char>, value: Seq<char>) -> StyleValueView {
    StyleValueView::Static(
        StaticStyleView {
            property,
            value,
            level: 0,
            selector: None,
            style_order: None,
            layer: None,
            theme_token_resolution: ThemeTokenResolution::CssVariable,
        },
    )
}

/// The base styles a component brings.
pub open spec fn kind_styles(k: ExportVariableKind) -> Seq<StyleValueView> {
    match k {
        ExportVariableKind::Flex => seq![base_style("display"@, "flex"@)],
        ExportVariableKind::VStack => seq![
            base_style("display"@, "flex"@),
            base_style("flexDirection"@, "column"@),
        ],
        ExportVariableKind::Center => seq![
            base_style("display"@, "flex"@),
            base_style("justifyContent"@, "center"@),
            base_style("alignItems"@, "center"@),
        ],
        _ => Seq::empty(),
    }
}

/// The component of an exported name.
pub open spec fn kind_of_name(v: Seq<char>) -> Option<ExportVariableKind> {
    if v == "Box"@ {
        Some(ExportVariableKind::Box)
    } else if v == "Text"@ {
        Some(ExportVariableKind::Text)
    } else if v == "Image"@ {
        Some(ExportVariableKind::Image)
    } else if v == "Button"@ {
        Some(ExportVariableKind::Button)
    } else if v == "Input"@ {
        Some(ExportVariableKind::Input)
    } else if v == "Flex"@ {
        Some(ExportVariableKind::Flex)
    } else if v == "VStack"@ {
        Some(ExportVariableKind::VStack)
    } else if v == "Center"@ {
        Some(ExportVariableKind::Center)
    } else {
        None
    }
}

/// The views of a list of styles.
pub open spec fn styles_view(v: Seq<ExtractStyleValue>) -> Seq<StyleValueView> {
    v.map_values(|s: ExtractStyleValue| s@)
}

fn base(property: &str, value: &str) -> (r: ExtractStyleValue)
    ensures
        r@ == base_style(property@, value@),
{
    ExtractStyleValue::Static(
        ExtractStaticStyle {
            value: value.to_string(),
            property: property.to_string(),
            level: 0,
            selector: None,
            style_order: None,
            layer: None,
            theme_token_resolution: ThemeTokenResolution::CssVariable,
        },
    )
}

impl ExportVariableKind {
    /// The tag the component renders (every component renders one).
    pub fn to_tag(&self) -> (r: Result<&'static str, &'static str>)
        ensures
            r is Ok,
            r->Ok_0@ == tag_of(*self),
    {
        match self {
            ExportVariableKind::Center | ExportVariableKind::VStack | ExportVariableKind::Flex
            | ExportVariableKind::Box => Ok("div"),
            ExportVariableKind::Text => Ok("span"),
            ExportVariableKind::Image => Ok("img"),
            ExportVariableKind::Button => Ok("button"),
            ExportVariableKind::Input => Ok("input"),
        }
    }

    /// The base styles the component brings.
    pub fn extract(&self) -> (r: Vec<ExtractStyleValue>)
        ensures
            styles_view(r@) == kind_styles(*self),
    {
        let mut r: Vec<ExtractStyleValue> = Vec::new();
        match self {
            ExportVariableKind::Flex => {
                r.push(base("display", "flex"));
            },
            ExportVariableKind::VStack => {
                r.push(base("display", "flex"));
                r.push(base("flexDirection", "column"));
            },
            ExportVariableKind::Center => {
                r.push(base("display", "flex"));
                r.push(base("justifyContent", "center"));
                r.push(base("alignItems", "center"));
            },
            _ => {},
        }
        assert(styles_view(r@) =~= kind_styles(*self));
        r
    }
}

impl TryFrom<String> for ExportVariableKind {
    type Error = ();

    /// The component exported under `value`.
    fn try_from(value: String) -> (r: Result<Self, Self::Error>) {
        let v = value.as_str();
        if str_eq(v, "Box") {
            Ok(ExportVariableKind::Box)
        } else if str_eq(v, "Text") {
            Ok(ExportVariableKind::Text)
        } else if str_eq(v, "Image") {
            Ok(ExportVariableKind::Image)
        } else if str_eq(v, "Button") {
            Ok(ExportVariableKind::Button)
        } else if str_eq(v, "Input") {
            Ok(ExportVariableKind::Input)
        } else if str_eq(v, "Flex") {
            Ok(ExportVariableKind::Flex)
        } else if str_eq(v, "VStack") {
            Ok(ExportVariableKind::VStack)
        } else if str_eq(v, "Center") {
            Ok(ExportVariableKind::Center)
        } else {
            Err(())
        }
    }
}

impl vstd::std_specs::convert::TryFromSpecImpl<String> for ExportVariableKind {
    open spec fn obeys_try_from_spec() -> bool {
        true
    }

    open spec fn try_from_spec(v: String) -> Result<Self, ()> {
        match kind_of_name(v@) {
            Some(k) => Ok(k),
            None => Err(()),
        }
    }
}

} // verus!
