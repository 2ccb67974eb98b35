//! Extracted styles: static ones (a fixed value), dynamic ones (a CSS
//! variable set from an expression) and typography references; and what each
//! turns into on the element (a class name, or a class name with a variable).
use vstd::prelude::*;
use crate::file_map::file_pairs;
use crate::naming::{pairs_after, style_file, class_map_after, class_name_of, opt_seq, same_settings, sheet_to_classname, sheet_to_variable_name};


use crate::optimize_multi_css_value::{
    check_multi_css_optimize, is_multi_css_property, optimize_multi_css_value, optimized_multi,
};
use crate::state::CssState;
use crate::style_selector::{optimize_selector, optimized_selector, selector_text, SelectorView, StyleSelector};
use crate::ratio::{reduce_ratio, reduced_ratio};
use crate::text::{chars_of, str_eq, string_of};

verus! {

/// How theme tokens are resolved when a style is written as CSS.
#[derive(Debug, PartialEq, Eq, Structural, Clone, Copy, Hash, PartialOrd, Ord, Default)]
pub enum ThemeTokenResolution {
    #[default]
    CssVariable,
    FirstValue,
}

/// A style with a fixed value.
#[derive(Debug, PartialEq, Eq, Clone, Hash)]
pub struct ExtractStaticStyle {
    /// property
    pub property: String,
    /// fixed value
    pub value: String,
    /// responsive level
    pub level: u8,
    /// selector
    pub selector: Option<StyleSelector>,
    /// None is last, 0 is first, 1 is second, etc.
    pub style_order: Option<u8>,
    /// CSS layer name (from vanilla-extract `layer()`)
    pub layer: Option<String>,
    /// How theme tokens should be resolved when converting to CSS.
    pub theme_token_resolution: ThemeTokenResolution,
}

/// The mathematical value of an [`ExtractStaticStyle`].
pub struct StaticStyleView {
    pub property: Seq<char>,
    pub value: Seq<char>,
    pub level: u8,
    pub selector: Option<SelectorView>,
    pub style_order: Option<u8>,
    pub layer: Option<Seq<char>>,
    pub theme_token_resolution: ThemeTokenResolution,
}

/// The view of an optional selector.
pub open spec fn selector_view(o: Option<StyleSelector>) -> Option<SelectorView> {
    match o {
        Some(s) => Some(s@),
        None => None,
    }
}

/// The view of an optional string.
pub open spec fn string_view(o: Option<String>) -> Option<Seq<char>> {
    match o {
        Some(s) => Some(s@),
        None => None,
    }
}

/// An optional selector with its whitespace collapsed.
pub open spec fn optimized_opt(o: Option<SelectorView>) -> Option<SelectorView> {
    match o {
        Some(s) => Some(optimized_selector(s)),
        None => None,
    }
}

impl View for ExtractStaticStyle {
    type V = StaticStyleView;

    open spec fn view(&self) -> StaticStyleView {
        StaticStyleView {
            property: self.property@,
            value: self.value@,
            level: self.level,
            selector: selector_view(self.selector),
            style_order: self.style_order,
            layer: string_view(self.layer),
            theme_token_resolution: self.theme_token_resolution,
        }
    }
}

/// Properties whose values are kept as written (no unit or token
/// conversion), e.g. `opacity`, `zIndex`, `lineHeight`.
pub open spec fn is_maintained_property(p: Seq<char>) -> bool {
    p == "opacity"@ || p == "flex"@ || p == "zIndex"@ || p == "lineClamp"@ || p == "fontWeight"@ || p
        == "lineHeight"@ || p == "scale"@ || p == "aspectRatio"@ || p == "flexGrow"@ || p
        == "flexShrink"@ || p == "order"@ || p == "gridColumn"@ || p == "gridColumnStart"@ || p
        == "gridColumnEnd"@ || p == "gridRow"@ || p == "gridRowStart"@ || p == "gridRowEnd"@ || p
        == "animationIterationCount"@
}

/// Whether a property's value is kept as written rather than converted.
pub fn maintains_value(property: &str) -> (r: bool)
    ensures
        r == is_maintained_property(property@),
{
    str_eq(property, "opacity") || str_eq(property, "flex") || str_eq(property, "zIndex") || str_eq(
        property,
        "lineClamp",
    ) || str_eq(property, "fontWeight") || str_eq(property, "lineHeight") || str_eq(property, "scale")
        || str_eq(property, "aspectRatio") || str_eq(property, "flexGrow") || str_eq(
        property,
        "flexShrink",
    ) || str_eq(property, "order") || str_eq(property, "gridColumn") || str_eq(
        property,
        "gridColumnStart",
    ) || str_eq(property, "gridColumnEnd") || str_eq(property, "gridRow") || str_eq(
        property,
        "gridRowStart",
    ) || str_eq(property, "gridRowEnd") || str_eq(property, "animationIterationCount")
}

pub(crate) fn optimize_opt(selector: Option<StyleSelector>) -> (r: Option<StyleSelector>)
    ensures
        selector_view(r) == optimized_opt(selector_view(selector)),
{
    match selector {
        Some(s) => Some(optimize_selector(s)),
        None => None,
    }
}

/// The value a static style keeps: an aspect-ratio value (property
/// `aspectRatio` or `aspect-ratio`) in lowest terms (`16/10` becomes `8/5`),
/// any other value as it is.
pub open spec fn static_value(property: Seq<char>, value: Seq<char>) -> Seq<char> {
    if property == "aspectRatio"@ || property == "aspect-ratio"@ {
        reduced_ratio(value)
    } else {
        value
    }
}

/// [`static_value`].
pub fn static_value_of(property: &str, value: &str) -> (r: String)
    ensures
        r@ == static_value(property@, value@),
{
    if str_eq(property, "aspectRatio") || str_eq(property, "aspect-ratio") {
        reduce_ratio(value)
    } else {
        value.to_string()
    }
}

impl ExtractStaticStyle {
    /// A static style. `value` is the value as the value conversion and
    /// `optimize_value` leave it; an aspect-ratio value is reduced by the GCD
    /// of its two numbers, and the selector's whitespace is collapsed.
    pub fn new(property: &str, value: &str, level: u8, selector: Option<StyleSelector>) -> (r: Self)
        ensures
            r@ == (StaticStyleView {
                property: property@,
                value: static_value(property@, value@),
                level,
                selector: optimized_opt(selector_view(selector)),
                style_order: None,
                layer: None,
                theme_token_resolution: ThemeTokenResolution::CssVariable,
            }),
    {
        ExtractStaticStyle {
            value: static_value_of(property, value),
            property: property.to_string(),
            level,
            selector: optimize_opt(selector),
            style_order: None,
            layer: None,
            theme_token_resolution: ThemeTokenResolution::CssVariable,
        }
    }

    /// A static style in a CSS layer (its value as [`ExtractStaticStyle::new`]
    /// keeps it).
    pub fn new_with_layer(
        property: &str,
        value: &str,
        level: u8,
        selector: Option<StyleSelector>,
        layer: Option<String>,
    ) -> (r: Self)
        ensures
            r@ == (StaticStyleView {
                property: property@,
                value: static_value(property@, value@),
                level,
                selector: optimized_opt(selector_view(selector)),
                style_order: None,
                layer: string_view(layer),
                theme_token_resolution: ThemeTokenResolution::CssVariable,
            }),
    {
        let mut style = Self::new(property, value, level, selector);
        style.layer = layer;
        style
    }

    /// A base static style: style order 0, value (an aspect-ratio one too)
    /// and selector kept as given.
    pub fn new_basic(property: &str, value: &str, level: u8, selector: Option<StyleSelector>) -> (r: Self)
        ensures
            r@ == (StaticStyleView {
                property: property@,
                value: value@,
                level,
                selector: selector_view(selector),
                style_order: Some(0),
                layer: None,
                theme_token_resolution: ThemeTokenResolution::CssVariable,
            }),
    {
        ExtractStaticStyle {
            value: value.to_string(),
            property: property.to_string(),
            level,
            selector,
            style_order: Some(0),
            layer: None,
            theme_token_resolution: ThemeTokenResolution::CssVariable,
        }
    }

    /// The same style with another theme-token resolution.
    pub fn with_theme_token_resolution(self, resolution: ThemeTokenResolution) -> (r: Self)
        ensures
            r@ == (StaticStyleView { theme_token_resolution: resolution, ..self@ }),
    {
        let mut s = self;
        s.theme_token_resolution = resolution;
        s
    }

    /// The layer name.
    pub fn layer(&self) -> (r: Option<&str>)
        ensures
            opt_seq(r) == self@.layer,
    {
        match &self.layer {
            Some(l) => Some(l.as_str()),
            None => None,
        }
    }

    pub fn property(&self) -> (r: &str)
        ensures
            r@ == self@.property,
    {
        self.property.as_str()
    }

    pub fn value(&self) -> (r: &str)
        ensures
            r@ == self@.value,
    {
        self.value.as_str()
    }

    pub fn level(&self) -> (r: u8)
        ensures
            r == self@.level,
    {
        self.level
    }

    pub fn selector(&self) -> (r: Option<&StyleSelector>)
        ensures
            crate::style_selector::opt_selector(r) == self@.selector,
    {
        match &self.selector {
            Some(s) => Some(s),
            None => None,
        }
    }

    pub fn style_order(&self) -> (r: Option<u8>)
        ensures
            r == self@.style_order,
    {
        self.style_order
    }

    pub fn theme_token_resolution(&self) -> (r: ThemeTokenResolution)
        ensures
            r == self@.theme_token_resolution,
    {
        self.theme_token_resolution
    }
}

/// A style whose value comes from an expression at run time, through a CSS
/// variable.
#[derive(Debug, PartialEq, Eq, Clone, Hash)]
pub struct ExtractDynamicStyle {
    property: String,
    level: u8,
    identifier: String,
    selector: Option<StyleSelector>,
    style_order: Option<u8>,
    /// Whether the value had `!important`, stripped from the identifier.
    important: bool,
}

/// The mathematical value of an [`ExtractDynamicStyle`].
pub struct DynamicStyleView {
    pub property: Seq<char>,
    pub level: u8,
    pub identifier: Seq<char>,
    pub selector: Option<SelectorView>,
    pub style_order: Option<u8>,
    pub important: bool,
}

impl View for ExtractDynamicStyle {
    type V = DynamicStyleView;

    closed spec fn view(&self) -> DynamicStyleView {
        DynamicStyleView {
            property: self.property@,
            level: self.level,
            identifier: self.identifier@,
            selector: selector_view(self.selector),
            style_order: self.style_order,
            important: self.important,
        }
    }
}

/// `s` ends with `p`.
pub open spec fn ends_with(s: Seq<char>, p: Seq<char>) -> bool {
    p.len() <= s.len() && s.skip(s.len() - p.len()) == p
}

/// The identifier with ` !important` removed before a closing delimiter,
/// trying the bare end, then a backtick, a double quote and a single quote;
/// and whether it was found.
pub open spec fn stripped_important(id: Seq<char>) -> (Seq<char>, bool) {
    let bang = " !important"@;
    if ends_with(id, bang) {
        (id.take(id.len() - bang.len()), true)
    } else if ends_with(id, bang + "`"@) {
        (id.take(id.len() - bang.len() - 1) + "`"@, true)
    } else if ends_with(id, bang + "\""@) {
        (id.take(id.len() - bang.len() - 1) + "\""@, true)
    } else if ends_with(id, bang + "'"@) {
        (id.take(id.len() - bang.len() - 1) + "'"@, true)
    } else {
        (id, false)
    }
}

fn ends_with_at(v: &Vec<char>, p: &str) -> (r: bool)
    ensures
        r == ends_with(v@, p@),
{
    let pv = chars_of(p);
    if pv.len() > v.len() {
        return false;
    }
    let n = v.len();
    let off = n - pv.len();
    let mut i: usize = 0;
    while i < pv.len()
        invariant
            n == v@.len(),
            off + pv@.len() == n,
            pv@ == p@,
            i <= pv@.len(),
            forall|j: int| 0 <= j < i ==> v@[off + j] == pv@[j],
        decreases pv@.len() - i,
    {
        if v[off + i] != pv[i] {
            assert(v@.skip(off as int)[i as int] != pv@[i as int]);
            return false;
        }
        i = i + 1;
    }
    assert(v@.skip(off as int) =~= pv@);
    true
}

/// Strip ` !important` from a dynamic style identifier, returning the
/// cleaned identifier and whether `!important` was found.
pub fn strip_important(identifier: &str) -> (r: (String, bool))
    ensures
        (r.0@, r.1) == stripped_important(identifier@),
{
    let v = chars_of(identifier);
    proof {
        reveal_strlit(" !important");
        reveal_strlit(" !important`");
        reveal_strlit(" !important\"");
        reveal_strlit(" !important'");
        reveal_strlit("`");
        reveal_strlit("\"");
        reveal_strlit("'");
        assert(" !important"@ + "`"@ =~= " !important`"@);
        assert(" !important"@ + "\""@ =~= " !important\""@);
        assert(" !important"@ + "'"@ =~= " !important'"@);
    }
    if ends_with_at(&v, " !important") {
        return (string_of(&v, 0, v.len() - 11), true);
    }
    if ends_with_at(&v, " !important`") {
        let mut s = string_of(&v, 0, v.len() - 12);
        crate::text::push_char(&mut s, '`');
        assert(s@ =~= v@.take(v@.len() - 12) + "`"@);
        return (s, true);
    }
    if ends_with_at(&v, " !important\"") {
        let mut s = string_of(&v, 0, v.len() - 12);
        crate::text::push_char(&mut s, '"');
        assert(s@ =~= v@.take(v@.len() - 12) + "\""@);
        return (s, true);
    }
    if ends_with_at(&v, " !important'") {
        let mut s = string_of(&v, 0, v.len() - 12);
        crate::text::push_char(&mut s, '\'');
        assert(s@ =~= v@.take(v@.len() - 12) + "'"@);
        return (s, true);
    }
    (identifier.to_string(), false)
}

impl ExtractDynamicStyle {
    /// A dynamic style. `identifier` is the expression code as
    /// `optimize_value` leaves it; a trailing ` !important` is stripped from it
    /// and recorded, and the selector's whitespace is collapsed.
    pub fn new(property: &str, level: u8, identifier: &str, selector: Option<StyleSelector>) -> (r: Self)
        ensures
            r@ == (DynamicStyleView {
                property: property@,
                level,
                identifier: stripped_important(identifier@).0,
                selector: optimized_opt(selector_view(selector)),
                style_order: None,
                important: stripped_important(identifier@).1,
            }),
    {
        let (id, important) = strip_important(identifier);
        ExtractDynamicStyle {
            property: property.to_string(),
            level,
            identifier: id,
            selector: optimize_opt(selector),
            style_order: None,
            important,
        }
    }

    pub fn property(&self) -> (r: &str)
        ensures
            r@ == self@.property,
    {
        self.property.as_str()
    }

    pub fn level(&self) -> (r: u8)
        ensures
            r == self@.level,
    {
        self.level
    }

    pub fn selector(&self) -> (r: Option<&StyleSelector>)
        ensures
            crate::style_selector::opt_selector(r) == self@.selector,
    {
        match &self.selector {
            Some(s) => Some(s),
            None => None,
        }
    }

    pub fn identifier(&self) -> (r: &str)
        ensures
            r@ == self@.identifier,
    {
        self.identifier.as_str()
    }

    pub fn style_order(&self) -> (r: Option<u8>)
        ensures
            r == self@.style_order,
    {
        self.style_order
    }

    pub fn important(&self) -> (r: bool)
        ensures
            r == self@.important,
    {
        self.important
    }
}

/// What an extracted style puts on its element.
#[derive(Debug, PartialEq, Eq, Clone)]
pub enum StyleProperty {
    ClassName(String),
    Variable { class_name: String, variable_name: String, identifier: String },
}

/// The mathematical value of a [`StyleProperty`].
pub enum StylePropertyView {
    ClassName(Seq<char>),
    Variable { class_name: Seq<char>, variable_name: Seq<char>, identifier: Seq<char> },
}

impl View for StyleProperty {
    type V = StylePropertyView;

    open spec fn view(&self) -> StylePropertyView {
        match self {
            StyleProperty::ClassName(n) => StylePropertyView::ClassName(n@),
            StyleProperty::Variable { class_name, variable_name, identifier } => StylePropertyView::Variable {
                class_name: class_name@,
                variable_name: variable_name@,
                identifier: identifier@,
            },
        }
    }
}

/// The text a style property stands for: its class name, or a reference to
/// its variable.
pub open spec fn style_property_text(p: StylePropertyView) -> Seq<char> {
    match p {
        StylePropertyView::ClassName(n) => n,
        StylePropertyView::Variable { variable_name, .. } => "var("@ + variable_name + ")"@,
    }
}

impl StyleProperty {
    /// The class name, or `var(--name)` for a variable.
    pub fn to_string(&self) -> (r: String)
        ensures
            r@ == style_property_text(self@),
    {
        match self {
            StyleProperty::ClassName(name) => name.clone(),
            StyleProperty::Variable { variable_name, .. } => {
                let mut out = String::new();
                crate::text::push_str(&mut out, "var(");
                crate::text::push_str(&mut out, variable_name.as_str());
                crate::text::push_str(&mut out, ")");
                out
            },
        }
    }
}

/// What turns an extracted style into the class name (and variable) its
/// element gets.
pub trait ExtractStyleProperty {
    /// Name the style, numbering it in the state's class map as needed.
    fn extract(&self, st: &mut CssState, filename: Option<&str>) -> (r: StyleProperty)
        requires
            old(st).wf(),
        ensures
            final(st).wf(),
            same_settings(*final(st), *old(st)),
    ;
}

/// The value a static style is named by: multi-item values optimized.
pub open spec fn class_value(s: StaticStyleView) -> Seq<char> {
    if is_multi_css_property(s.property) {
        optimized_multi(s.value)
    } else {
        s.value
    }
}

/// The selector text a style is named by.
pub open spec fn class_selector(o: Option<SelectorView>) -> Option<Seq<char>> {
    match o {
        Some(s) => Some(selector_text(s)),
        None => None,
    }
}

fn selector_string(o: &Option<StyleSelector>) -> (r: Option<String>)
    ensures
        string_view(r) == class_selector(selector_view(*o)),
{
    match o {
        Some(s) => Some(s.as_class_str()),
        None => None,
    }
}

fn as_opt_str(o: &Option<String>) -> (r: Option<&str>)
    ensures
        opt_seq(r) == string_view(*o),
{
    match o {
        Some(s) => Some(s.as_str()),
        None => None,
    }
}

/// What a static style puts on its element, given the state before.
pub open spec fn static_property(st: CssState, s: StaticStyleView, filename: Option<Seq<char>>) -> StylePropertyView {
    StylePropertyView::ClassName(
        class_name_of(st, s.property, s.level, Some(class_value(s)), class_selector(s.selector), s.style_order, filename),
    )
}

/// The class map after naming a static style.
pub open spec fn static_map_after(
    st: CssState,
    s: StaticStyleView,
    filename: Option<Seq<char>>,
) -> Seq<(Seq<char>, Seq<(Seq<char>, usize)>)> {
    class_map_after(st, s.property, s.level, Some(class_value(s)), class_selector(s.selector), s.style_order, filename)
}

/// What a dynamic style puts on its element, given the state before: its
/// class name, then the name of its variable (numbered after the class).
pub open spec fn dynamic_property(st: CssState, d: DynamicStyleView, filename: Option<Seq<char>>) -> StylePropertyView {
    let sel = class_selector(d.selector);
    let cm1 = class_map_after(st, d.property, d.level, None, sel, d.style_order, filename);
    StylePropertyView::Variable {
        class_name: class_name_of(st, d.property, d.level, None, sel, d.style_order, filename),
        variable_name: crate::naming::variable_name_of(st.debug, cm1, d.property, d.level, sel),
        identifier: d.identifier,
    }
}

/// The class map after naming a dynamic style and its variable.
pub open spec fn dynamic_map_after(
    st: CssState,
    d: DynamicStyleView,
    filename: Option<Seq<char>>,
) -> Seq<(Seq<char>, Seq<(Seq<char>, usize)>)> {
    let sel = class_selector(d.selector);
    let cm1 = class_map_after(st, d.property, d.level, None, sel, d.style_order, filename);
    crate::naming::variable_map_after(st.debug, cm1, d.property, d.level, sel)
}

impl ExtractStyleProperty for ExtractStaticStyle {
    /// The class name of the style.
    fn extract(&self, st: &mut CssState, filename: Option<&str>) -> (r: StyleProperty)
        ensures
            r@ == static_property(*old(st), self@, opt_seq(filename)),
            final(st).class_map@ == static_map_after(*old(st), self@, opt_seq(filename)),
            file_pairs(final(st).file_map) == pairs_after(
                file_pairs(old(st).file_map),
                style_file(self@.style_order, opt_seq(filename)),
            ),
    {
        let sel = selector_string(&self.selector);
        let v = if check_multi_css_optimize(self.property.as_str()) {
            optimize_multi_css_value(self.value.as_str())
        } else {
            self.value.clone()
        };
        StyleProperty::ClassName(
            sheet_to_classname(
                st,
                self.property.as_str(),
                self.level,
                Some(v.as_str()),
                as_opt_str(&sel),
                self.style_order,
                filename,
            ),
        )
    }
}

impl ExtractStyleProperty for ExtractDynamicStyle {
    /// The class name of the style and the CSS variable that carries its
    /// value.
    fn extract(&self, st: &mut CssState, filename: Option<&str>) -> (r: StyleProperty)
        ensures
            r@ == dynamic_property(*old(st), self@, opt_seq(filename)),
            final(st).class_map@ == dynamic_map_after(*old(st), self@, opt_seq(filename)),
            file_pairs(final(st).file_map) == pairs_after(
                file_pairs(old(st).file_map),
                style_file(self@.style_order, opt_seq(filename)),
            ),
    {
        let sel = selector_string(&self.selector);
        let class_name = sheet_to_classname(
            st,
            self.property.as_str(),
            self.level,
            None,
            as_opt_str(&sel),
            self.style_order,
            filename,
        );
        let variable_name = sheet_to_variable_name(st, self.property.as_str(), self.level, as_opt_str(&sel));
        StyleProperty::Variable { class_name, variable_name, identifier: self.identifier.clone() }
    }
}

/// A stylesheet imported by a global style: its URL and the file that
/// imports it.
#[derive(Debug, PartialEq, Eq, Clone, Hash)]
pub struct ExtractImport {
    pub url: String,
    pub file: String,
}

/// An extracted style.
#[derive(Debug, PartialEq, Eq, Clone, Hash)]
pub enum ExtractStyleValue {
    Static(ExtractStaticStyle),
    Typography(String),
    Dynamic(ExtractDynamicStyle),
    Import(ExtractImport),
}

/// The mathematical value of an [`ExtractStyleValue`]; an import by its URL
/// and file.
pub enum StyleValueView {
    Static(StaticStyleView),
    Typography(Seq<char>),
    Dynamic(DynamicStyleView),
    Import(Seq<char>, Seq<char>),
}

impl View for ExtractStyleValue {
    type V = StyleValueView;

    open spec fn view(&self) -> StyleValueView {
        match self {
            ExtractStyleValue::Static(s) => StyleValueView::Static(s@),
            ExtractStyleValue::Typography(t) => StyleValueView::Typography(t@),
            ExtractStyleValue::Dynamic(d) => StyleValueView::Dynamic(d@),
            ExtractStyleValue::Import(i) => StyleValueView::Import(i.url@, i.file@),
        }
    }
}

/// A style value once its style order is set: a static style keeps an
/// order it already has; a dynamic style takes the new one.
pub open spec fn with_style_order(v: StyleValueView, order: u8) -> StyleValueView {
    match v {
        StyleValueView::Static(s) => if s.style_order.is_none() {
            StyleValueView::Static(StaticStyleView { style_order: Some(order), ..s })
        } else {
            v
        },
        StyleValueView::Dynamic(d) => StyleValueView::Dynamic(DynamicStyleView { style_order: Some(order), ..d }),
        StyleValueView::Typography(_) => v,
        StyleValueView::Import(..) => v,
    }
}

fn copy_text(s: &String) -> (r: String)
    ensures
        r@ == s@,
{
    s.as_str().to_string()
}

fn copy_opt_selector(o: &Option<StyleSelector>) -> (r: Option<StyleSelector>)
    ensures
        selector_view(r) == selector_view(*o),
{
    match o {
        Some(s) => Some(s.copy()),
        None => None,
    }
}

impl ExtractStyleValue {
    /// A copy of the style.
    pub fn copy(&self) -> (r: ExtractStyleValue)
        ensures
            r@ == self@,
    {
        match self {
            ExtractStyleValue::Static(s) => ExtractStyleValue::Static(
                ExtractStaticStyle {
                    property: copy_text(&s.property),
                    value: copy_text(&s.value),
                    level: s.level,
                    selector: copy_opt_selector(&s.selector),
                    style_order: s.style_order,
                    layer: match &s.layer {
                        Some(l) => Some(copy_text(l)),
                        None => None,
                    },
                    theme_token_resolution: s.theme_token_resolution,
                },
            ),
            ExtractStyleValue::Dynamic(d) => ExtractStyleValue::Dynamic(
                ExtractDynamicStyle {
                    property: copy_text(&d.property),
                    level: d.level,
                    identifier: copy_text(&d.identifier),
                    selector: copy_opt_selector(&d.selector),
                    style_order: d.style_order,
                    important: d.important,
                },
            ),
            ExtractStyleValue::Typography(t) => ExtractStyleValue::Typography(copy_text(t)),
            ExtractStyleValue::Import(i) => ExtractStyleValue::Import(
                ExtractImport { url: copy_text(&i.url), file: copy_text(&i.file) },
            ),
        }
    }

    /// What the style puts on its element: static and dynamic styles are
    /// named; a typography reference becomes the class `typo-<name>`; an
    /// import puts nothing on it.
    pub fn extract(&self, st: &mut CssState, filename: Option<&str>) -> (r: Option<StyleProperty>)
        requires
            old(st).wf(),
        ensures
            final(st).wf(),
            same_settings(*final(st), *old(st)),
            r.is_some() <==> !(self@ is Import),
            match self@ {
                StyleValueView::Static(s) => {
                    &&& r.unwrap()@ == static_property(*old(st), s, opt_seq(filename))
                    &&& final(st).class_map@ == static_map_after(*old(st), s, opt_seq(filename))
                    &&& file_pairs(final(st).file_map) == pairs_after(
                        file_pairs(old(st).file_map),
                        style_file(s.style_order, opt_seq(filename)),
                    )
                },
                StyleValueView::Dynamic(d) => {
                    &&& r.unwrap()@ == dynamic_property(*old(st), d, opt_seq(filename))
                    &&& final(st).class_map@ == dynamic_map_after(*old(st), d, opt_seq(filename))
                    &&& file_pairs(final(st).file_map) == pairs_after(
                        file_pairs(old(st).file_map),
                        style_file(d.style_order, opt_seq(filename)),
                    )
                },
                StyleValueView::Typography(t) => {
                    &&& r.unwrap()@ == StylePropertyView::ClassName("typo-"@ + t)
                    &&& final(st).class_map == old(st).class_map
                    &&& final(st).file_map == old(st).file_map
                },
                StyleValueView::Import(..) => {
                    &&& final(st).class_map == old(st).class_map
                    &&& final(st).file_map == old(st).file_map
                },
            },
    {
        match self {
            ExtractStyleValue::Static(style) => Some(style.extract(st, filename)),
            ExtractStyleValue::Dynamic(style) => Some(style.extract(st, filename)),
            ExtractStyleValue::Typography(typo) => {
                let mut name = String::new();
                crate::text::push_str(&mut name, "typo-");
                crate::text::push_str(&mut name, typo.as_str());
                Some(StyleProperty::ClassName(name))
            },
            ExtractStyleValue::Import(_) => None,
        }
    }

    /// Give the style its style order (a static style keeps one it has).
    pub fn set_style_order(&mut self, order: u8)
        ensures
            final(self)@ == with_style_order(old(self)@, order),
    {
        match self {
            ExtractStyleValue::Static(style) => {
                if style.style_order.is_none() {
                    style.style_order = Some(order);
                }
            },
            ExtractStyleValue::Dynamic(style) => {
                style.style_order = Some(order);
            },
            ExtractStyleValue::Typography(_) => {},
            ExtractStyleValue::Import(_) => {},
        }
    }
}

/// The views of a list of style values.
pub open spec fn values_view(v: Seq<ExtractStyleValue>) -> Seq<StyleValueView> {
    v.map_values(|x: ExtractStyleValue| x@)
}

/// Give every style the style order, when there is one.
pub fn apply_style_order_to_styles(styles: &mut Vec<ExtractStyleValue>, style_order: Option<u8>)
    ensures
        values_view(final(styles)@) == match style_order {
            Some(o) => values_view(old(styles)@).map_values(|v: StyleValueView| with_style_order(v, o)),
            None => values_view(old(styles)@),
        },
{
    if let Some(order) = style_order {
        let ghost orig = values_view(styles@);
        let mut i: usize = 0;
        while i < styles.len()
            invariant
                i <= styles@.len(),
                styles@.len() == orig.len(),
                forall|j: int| 0 <= j < i ==> #[trigger] styles@[j]@ == with_style_order(orig[j], order),
                forall|j: int| i <= j < styles@.len() ==> #[trigger] styles@[j]@ == orig[j],
            decreases styles@.len() - i,
        {
            styles[i].set_style_order(order);
            i = i + 1;
        }
        assert(values_view(styles@) =~= orig.map_values(|v: StyleValueView| with_style_order(v, order)));
    }
}

} // verus!
