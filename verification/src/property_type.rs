//! Style properties: shorthand names (`bg`, `px`, `minW`, ...) stand for one
//! or more CSS properties; any other camel-case name is written in kebab
//! case, with a leading `-` for vendor-prefixed names (`WebkitX`, `MozX`,
//! `msX`).
use vstd::prelude::*;
use crate::text::{chars_of, is_ascii_upper, str_eq};
use crate::utils::{kebab, to_kebab_case};

verus! {

/// The CSS properties a shorthand stands for.
pub open spec fn property_alias(p: Seq<char>) -> Option<Seq<Seq<char>>> {
    if p == "bg"@ {
        Some(seq!["background"@])
    } else if p == "bgAttachment"@ {
        Some(seq!["background-attachment"@])
    } else if p == "bgClip"@ {
        Some(seq!["background-clip"@])
    } else if p == "bgColor"@ {
        Some(seq!["background-color"@])
    } else if p == "bgImage"@ {
        Some(seq!["background-image"@])
    } else if p == "bgImg"@ {
        Some(seq!["background-image"@])
    } else if p == "bgOrigin"@ {
        Some(seq!["background-origin"@])
    } else if p == "bgPosition"@ {
        Some(seq!["background-position"@])
    } else if p == "bgPositionX"@ {
        Some(seq!["background-position-x"@])
    } else if p == "bgPositionY"@ {
        Some(seq!["background-position-y"@])
    } else if p == "bgPos"@ {
        Some(seq!["background-position"@])
    } else if p == "bgPosX"@ {
        Some(seq!["background-position-x"@])
    } else if p == "bgPosY"@ {
        Some(seq!["background-position-y"@])
    } else if p == "bgRepeat"@ {
        Some(seq!["background-repeat"@])
    } else if p == "bgSize"@ {
        Some(seq!["background-size"@])
    } else if p == "bgBlendMode"@ {
        Some(seq!["background-blend-mode"@])
    } else if p == "backgroundImg"@ {
        Some(seq!["background-image"@])
    } else if p == "animationDir"@ {
        Some(seq!["animation-direction"@])
    } else if p == "flexDir"@ {
        Some(seq!["flex-direction"@])
    } else if p == "pos"@ {
        Some(seq!["position"@])
    } else if p == "m"@ {
        Some(seq!["margin"@])
    } else if p == "mt"@ {
        Some(seq!["margin-top"@])
    } else if p == "mr"@ {
        Some(seq!["margin-right"@])
    } else if p == "mb"@ {
        Some(seq!["margin-bottom"@])
    } else if p == "ml"@ {
        Some(seq!["margin-left"@])
    } else if p == "p"@ {
        Some(seq!["padding"@])
    } else if p == "pt"@ {
        Some(seq!["padding-top"@])
    } else if p == "pr"@ {
        Some(seq!["padding-right"@])
    } else if p == "pb"@ {
        Some(seq!["padding-bottom"@])
    } else if p == "pl"@ {
        Some(seq!["padding-left"@])
    } else if p == "w"@ {
        Some(seq!["width"@])
    } else if p == "h"@ {
        Some(seq!["height"@])
    } else if p == "minW"@ {
        Some(seq!["min-width"@])
    } else if p == "minH"@ {
        Some(seq!["min-height"@])
    } else if p == "maxW"@ {
        Some(seq!["max-width"@])
    } else if p == "maxH"@ {
        Some(seq!["max-height"@])
    } else if p == "mx"@ {
        Some(seq!["margin-left"@, "margin-right"@])
    } else if p == "my"@ {
        Some(seq!["margin-top"@, "margin-bottom"@])
    } else if p == "px"@ {
        Some(seq!["padding-left"@, "padding-right"@])
    } else if p == "py"@ {
        Some(seq!["padding-top"@, "padding-bottom"@])
    } else if p == "boxSize"@ {
        Some(seq!["width"@, "height"@])
    } else if p == "borderBottomRadius"@ {
        Some(seq!["border-bottom-left-radius"@, "border-bottom-right-radius"@])
    } else if p == "borderTopRadius"@ {
        Some(seq!["border-top-left-radius"@, "border-top-right-radius"@])
    } else if p == "borderLeftRadius"@ {
        Some(seq!["border-top-left-radius"@, "border-bottom-left-radius"@])
    } else if p == "borderRightRadius"@ {
        Some(seq!["border-top-right-radius"@, "border-bottom-right-radius"@])
    } else if p == "objectPos"@ {
        Some(seq!["object-position"@])
    } else if p == "offsetPos"@ {
        Some(seq!["offset-position"@])
    } else if p == "maskPos"@ {
        Some(seq!["mask-position"@])
    } else if p == "maskImg"@ {
        Some(seq!["mask-image"@])
    } else {
        None
    }
}

fn names1(a: &str) -> (r: Vec<String>)
    ensures
        strings_view(r@) == seq![a@],
{
    let mut r: Vec<String> = Vec::new();
    r.push(a.to_string());
    assert(strings_view(r@) =~= seq![a@]);
    r
}

fn names2(a: &str, b: &str) -> (r: Vec<String>)
    ensures
        strings_view(r@) == seq![a@, b@],
{
    let mut r: Vec<String> = Vec::new();
    r.push(a.to_string());
    r.push(b.to_string());
    assert(strings_view(r@) =~= seq![a@, b@]);
    r
}

/// The texts of a list of strings.
pub open spec fn strings_view(v: Seq<String>) -> Seq<Seq<char>> {
    v.map_values(|s: String| s@)
}

fn alias_of(p: &str) -> (r: Option<Vec<String>>)
    ensures
        match r {
            Some(v) => property_alias(p@) == Some(strings_view(v@)),
            None => property_alias(p@).is_none(),
        },
{
    if str_eq(p, "bg") {
        Some(names1("background"))
    } else if str_eq(p, "bgAttachment") {
        Some(names1("background-attachment"))
    } else if str_eq(p, "bgClip") {
        Some(names1("background-clip"))
    } else if str_eq(p, "bgColor") {
        Some(names1("background-color"))
    } else if str_eq(p, "bgImage") {
        Some(names1("background-image"))
    } else if str_eq(p, "bgImg") {
        Some(names1("background-image"))
    } else if str_eq(p, "bgOrigin") {
        Some(names1("background-origin"))
    } else if str_eq(p, "bgPosition") {
        Some(names1("background-position"))
    } else if str_eq(p, "bgPositionX") {
        Some(names1("background-position-x"))
    } else if str_eq(p, "bgPositionY") {
        Some(names1("background-position-y"))
    } else if str_eq(p, "bgPos") {
        Some(names1("background-position"))
    } else if str_eq(p, "bgPosX") {
        Some(names1("background-position-x"))
    } else if str_eq(p, "bgPosY") {
        Some(names1("background-position-y"))
    } else if str_eq(p, "bgRepeat") {
        Some(names1("background-repeat"))
    } else if str_eq(p, "bgSize") {
        Some(names1("background-size"))
    } else if str_eq(p, "bgBlendMode") {
        Some(names1("background-blend-mode"))
    } else if str_eq(p, "backgroundImg") {
        Some(names1("background-image"))
    } else if str_eq(p, "animationDir") {
        Some(names1("animation-direction"))
    } else if str_eq(p, "flexDir") {
        Some(names1("flex-direction"))
    } else if str_eq(p, "pos") {
        Some(names1("position"))
    } else if str_eq(p, "m") {
        Some(names1("margin"))
    } else if str_eq(p, "mt") {
        Some(names1("margin-top"))
    } else if str_eq(p, "mr") {
        Some(names1("margin-right"))
    } else if str_eq(p, "mb") {
        Some(names1("margin-bottom"))
    } else if str_eq(p, "ml") {
        Some(names1("margin-left"))
    } else if str_eq(p, "p") {
        Some(names1("padding"))
    } else if str_eq(p, "pt") {
        Some(names1("padding-top"))
    } else if str_eq(p, "pr") {
        Some(names1("padding-right"))
    } else if str_eq(p, "pb") {
        Some(names1("padding-bottom"))
    } else if str_eq(p, "pl") {
        Some(names1("padding-left"))
    } else if str_eq(p, "w") {
        Some(names1("width"))
    } else if str_eq(p, "h") {
        Some(names1("height"))
    } else if str_eq(p, "minW") {
        Some(names1("min-width"))
    } else if str_eq(p, "minH") {
        Some(names1("min-height"))
    } else if str_eq(p, "maxW") {
        Some(names1("max-width"))
    } else if str_eq(p, "maxH") {
        Some(names1("max-height"))
    } else if str_eq(p, "mx") {
        Some(names2("margin-left", "margin-right"))
    } else if str_eq(p, "my") {
        Some(names2("margin-top", "margin-bottom"))
    } else if str_eq(p, "px") {
        Some(names2("padding-left", "padding-right"))
    } else if str_eq(p, "py") {
        Some(names2("padding-top", "padding-bottom"))
    } else if str_eq(p, "boxSize") {
        Some(names2("width", "height"))
    } else if str_eq(p, "borderBottomRadius") {
        Some(names2("border-bottom-left-radius", "border-bottom-right-radius"))
    } else if str_eq(p, "borderTopRadius") {
        Some(names2("border-top-left-radius", "border-top-right-radius"))
    } else if str_eq(p, "borderLeftRadius") {
        Some(names2("border-top-left-radius", "border-bottom-left-radius"))
    } else if str_eq(p, "borderRightRadius") {
        Some(names2("border-top-right-radius", "border-bottom-right-radius"))
    } else if str_eq(p, "objectPos") {
        Some(names1("object-position"))
    } else if str_eq(p, "offsetPos") {
        Some(names1("offset-position"))
    } else if str_eq(p, "maskPos") {
        Some(names1("mask-position"))
    } else if str_eq(p, "maskImg") {
        Some(names1("mask-image"))
    } else {
        None
    }
}

/// Whether a character is uppercase (Unicode `Uppercase`).
pub uninterp spec fn unicode_uppercase(c: char) -> bool;

/// `char::is_uppercase`. Its documentation gives the ASCII letters `A`-`Z`
/// as uppercase and no other ASCII character; beyond ASCII the Unicode
/// tables decide, which is left to the name.
#[verifier::external_body]
fn char_is_uppercase(c: char) -> (r: bool)
    ensures
        r == unicode_uppercase(c),
        (c as u32) < 128 ==> (r == is_ascii_upper(c)),
{
    c.is_uppercase()
}

/// `s` starts with `prefix` and the character right after it is uppercase.
pub open spec fn prefixed_upper(s: Seq<char>, prefix: Seq<char>) -> bool {
    s.len() > prefix.len() && s.take(prefix.len() as int) == prefix && unicode_uppercase(s[prefix.len() as int])
}

/// A vendor-prefixed name: `Webkit`, `Moz` or `ms` followed by an uppercase
/// character.
pub open spec fn is_vendor_property(s: Seq<char>) -> bool {
    prefixed_upper(s, "Webkit"@) || prefixed_upper(s, "Moz"@) || prefixed_upper(s, "ms"@)
}

/// The CSS name of a property that is no shorthand: kebab case, with a
/// leading `-` for vendor-prefixed names.
pub open spec fn plain_property(s: Seq<char>) -> Seq<char> {
    if is_vendor_property(s) {
        seq!['-'] + kebab(s)
    } else {
        kebab(s)
    }
}

/// The CSS properties a style property stands for.
pub open spec fn property_names(s: Seq<char>) -> Seq<Seq<char>> {
    match property_alias(s) {
        Some(v) => v,
        None => seq![plain_property(s)],
    }
}

fn starts_upper(v: &[char], prefix: &str) -> (r: bool)
    ensures
        r == prefixed_upper(v@, prefix@),
{
    let p = chars_of(prefix);
    if v.len() <= p.len() {
        return false;
    }
    let mut i: usize = 0;
    while i < p.len()
        invariant
            p@ == prefix@,
            p@.len() < v@.len(),
            i <= p@.len(),
            forall|j: int| 0 <= j < i ==> v@[j] == p@[j],
        decreases p@.len() - i,
    {
        if v[i] != p[i] {
            assert(v@.take(p@.len() as int)[i as int] != p@[i as int]);
            return false;
        }
        i = i + 1;
    }
    assert(v@.take(p@.len() as int) =~= p@);
    char_is_uppercase(v[p.len()])
}

fn vendor_property(value: &str) -> (r: bool)
    ensures
        r == is_vendor_property(value@),
{
    let v = chars_of(value);
    starts_upper(&v, "Webkit") || starts_upper(&v, "Moz") || starts_upper(&v, "ms")
}

fn plain_property_name(value: &str) -> (r: String)
    ensures
        r@ == plain_property(value@),
{
    let k = to_kebab_case(value);
    if vendor_property(value) {
        let mut out = String::new();
        crate::text::push_char(&mut out, '-');
        crate::text::push_str(&mut out, k.as_str());
        assert(out@ =~= seq!['-'] + kebab(value@));
        out
    } else {
        k
    }
}

/// The CSS properties a style property stands for: those of a shorthand, or
/// the one CSS name of any other property.
pub fn disassemble_property(property: &str) -> (r: Vec<String>)
    ensures
        strings_view(r@) == property_names(property@),
{
    match alias_of(property) {
        Some(v) => v,
        None => {
            let mut r: Vec<String> = Vec::new();
            r.push(plain_property_name(property));
            assert(strings_view(r@) =~= seq![plain_property(property@)]);
            r
        },
    }
}

/// One CSS property, or several that a shorthand stands for.
#[derive(Clone, Debug, PartialEq)]
pub enum PropertyType {
    Single(String),
    Multi(Vec<String>),
}

/// The mathematical value of a [`PropertyType`].
pub enum PropertyNames {
    Single(Seq<char>),
    Multi(Seq<Seq<char>>),
}

impl View for PropertyType {
    type V = PropertyNames;

    open spec fn view(&self) -> PropertyNames {
        match self {
            PropertyType::Single(s) => PropertyNames::Single(s@),
            PropertyType::Multi(v) => PropertyNames::Multi(strings_view(v@)),
        }
    }
}

/// What a style property name converts to: `Single` for a shorthand of one
/// property and for every plain name, `Multi` for a shorthand of several.
pub open spec fn property_type_of(s: Seq<char>) -> PropertyNames {
    match property_alias(s) {
        Some(v) => if v.len() == 1 {
            PropertyNames::Single(v[0])
        } else {
            PropertyNames::Multi(v)
        },
        None => PropertyNames::Single(plain_property(s)),
    }
}

impl PropertyType {
    /// The property type of a style property name.
    pub fn from_property(value: &str) -> (r: PropertyType)
        ensures
            r@ == property_type_of(value@),
    {
        match alias_of(value) {
            Some(mut v) => if v.len() == 1 {
                let s = v.remove(0);
                PropertyType::Single(s)
            } else {
                PropertyType::Multi(v)
            },
            None => PropertyType::Single(plain_property_name(value)),
        }
    }

    /// The two given properties, as several.
    pub fn from_pair(value: [&str; 2]) -> (r: PropertyType)
        ensures
            r@ == PropertyNames::Multi(seq![value[0]@, value[1]@]),
    {
        PropertyType::Multi(names2(value[0], value[1]))
    }
}

/// The names of a property type: the one name, or all of them.
pub open spec fn names_of(t: PropertyNames) -> Seq<Seq<char>> {
    match t {
        PropertyNames::Single(s) => seq![s],
        PropertyNames::Multi(v) => v,
    }
}

/// Disassembling a property gives the names of its property type: the one
/// name of a single property, every name of a shorthand.
pub proof fn law_disassemble_is_property_type(p: Seq<char>)
    ensures
        property_names(p) == names_of(property_type_of(p)),
{
    match property_alias(p) {
        Some(v) => {
            if v.len() == 1 {
                assert(v =~= seq![v[0]]);
            }
        },
        None => {},
    }
}

} // verus!
