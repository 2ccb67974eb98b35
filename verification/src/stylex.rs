//! StyleX support: which StyleX function an import names, CSS variable
//! blocks, property names, and the selector a value-level condition
//! (`':hover'`, `'@media ...'`) puts a style under.
use vstd::prelude::*;
use crate::at_rule::starts;
use crate::style_selector::{
    nested_at_rule, AtRuleKind, SelectorView, StyleSelector,
};
use crate::extract_style::{selector_view, string_view};
use crate::text::{chars_of, push_str, push_trimmed, str_eq, string_from, trim};
use crate::utils::{kebab, to_kebab_case};

verus! {

/// Which StyleX function a named import refers to.
#[derive(Debug, PartialEq, Eq, Structural, Clone, Copy)]
pub enum StylexFunction {
    Create,
    Props,
    Attrs,
    Keyframes,
    DefineVars,
    CreateTheme,
    CreateThemeContract,
    DefineConsts,
    PositionTry,
    ViewTransitionClass,
}

/// The StyleX function exported under a name.
pub open spec fn stylex_function_of(v: Seq<char>) -> Option<StylexFunction> {
    if v == "create"@ {
        Some(StylexFunction::Create)
    } else if v == "props"@ {
        Some(StylexFunction::Props)
    } else if v == "attrs"@ {
        Some(StylexFunction::Attrs)
    } else if v == "keyframes"@ {
        Some(StylexFunction::Keyframes)
    } else if v == "defineVars"@ {
        Some(StylexFunction::DefineVars)
    } else if v == "createTheme"@ {
        Some(StylexFunction::CreateTheme)
    } else if v == "createThemeContract"@ {
        Some(StylexFunction::CreateThemeContract)
    } else if v == "defineConsts"@ {
        Some(StylexFunction::DefineConsts)
    } else if v == "positionTry"@ {
        Some(StylexFunction::PositionTry)
    } else if v == "viewTransitionClass"@ {
        Some(StylexFunction::ViewTransitionClass)
    } else {
        None
    }
}

impl StylexFunction {
    /// The StyleX function exported under `value`, if any.
    pub fn from_export_name(value: &str) -> (r: Option<Self>)
        ensures
            r == stylex_function_of(value@),
    {
        if str_eq(value, "create") {
            Some(StylexFunction::Create)
        } else if str_eq(value, "props") {
            Some(StylexFunction::Props)
        } else if str_eq(value, "attrs") {
            Some(StylexFunction::Attrs)
        } else if str_eq(value, "keyframes") {
            Some(StylexFunction::Keyframes)
        } else if str_eq(value, "defineVars") {
            Some(StylexFunction::DefineVars)
        } else if str_eq(value, "createTheme") {
            Some(StylexFunction::CreateTheme)
        } else if str_eq(value, "createThemeContract") {
            Some(StylexFunction::CreateThemeContract)
        } else if str_eq(value, "defineConsts") {
            Some(StylexFunction::DefineConsts)
        } else if str_eq(value, "positionTry") {
            Some(StylexFunction::PositionTry)
        } else if str_eq(value, "viewTransitionClass") {
            Some(StylexFunction::ViewTransitionClass)
        } else {
            None
        }
    }
}

/// The declarations `name:value;` of a list of assignments.
pub open spec fn assignments_text(a: Seq<(String, String)>) -> Seq<char>
    decreases a.len(),
{
    if a.len() == 0 {
        Seq::empty()
    } else {
        assignments_text(a.drop_last()) + a.last().0@ + seq![':'] + a.last().1@ + seq![';']
    }
}

/// A rule block `selector{name:value;...}` setting CSS variables.
pub fn css_variable_block(selector: &str, assignments: &[(String, String)]) -> (r: String)
    ensures
        r@ == selector@ + seq!['{'] + assignments_text(assignments@) + seq!['}'],
{
    let mut css = String::new();
    push_str(&mut css, selector);
    crate::text::push_char(&mut css, '{');
    let mut i: usize = 0;
    while i < assignments.len()
        invariant
            i <= assignments@.len(),
            css@ == selector@ + seq!['{'] + assignments_text(assignments@.take(i as int)),
        decreases assignments@.len() - i,
    {
        proof {
            assert(assignments@.take(i + 1).drop_last() == assignments@.take(i as int));
        }
        let (name, value) = &assignments[i];
        push_str(&mut css, name.as_str());
        crate::text::push_char(&mut css, ':');
        push_str(&mut css, value.as_str());
        crate::text::push_char(&mut css, ';');
        i = i + 1;
    }
    assert(assignments@.take(i as int) == assignments@);
    crate::text::push_char(&mut css, '}');
    css
}

/// A StyleX property name in CSS: kebab case, with no shorthand expansion.
pub fn normalize_stylex_property(name: &str) -> (r: String)
    ensures
        r@ == kebab(name@),
{
    to_kebab_case(name)
}

/// A reference to a `stylex.include(base.member)` call inside
/// `stylex.create()`.
#[derive(Debug, Clone)]
pub struct StylexIncludeRef {
    pub var_name: String,
    pub member_name: String,
}

/// A condition collected on the way down a value-level condition object.
#[derive(Debug, Clone)]
pub enum SelectorPart {
    /// Pseudo-class or pseudo-element, e.g. `:hover`, `::placeholder`.
    Pseudo(String),
    /// At-rule condition, e.g. `@media (max-width: 600px)`.
    AtRule { kind: AtRuleKind, query: String },
}

/// The mathematical value of a [`SelectorPart`].
pub enum SelectorPartView {
    Pseudo(Seq<char>),
    AtRule { kind: AtRuleKind, query: Seq<char> },
}

impl View for SelectorPart {
    type V = SelectorPartView;

    open spec fn view(&self) -> SelectorPartView {
        match self {
            SelectorPart::Pseudo(s) => SelectorPartView::Pseudo(s@),
            SelectorPart::AtRule { kind, query } => SelectorPartView::AtRule { kind: *kind, query: query@ },
        }
    }
}

/// One decomposed style of a value-level condition object.
#[derive(Debug)]
pub struct DecomposedStyle {
    pub property: String,
    /// `None` means null (no CSS emitted, tracked for atomic override).
    pub value: Option<String>,
    pub selector: Option<StyleSelector>,
}

/// A dynamic StyleX namespace (an arrow function in `stylex.create()`).
#[derive(Debug, Clone)]
pub struct StylexDynamicInfo {
    /// Combined class names of all properties (static and dynamic).
    pub class_name: String,
    /// The parameter index and CSS variable name of each dynamic property.
    pub css_vars: Vec<(usize, String)>,
}

/// A StyleX namespace entry: static or dynamic.
#[derive(Debug, Clone)]
pub enum StylexNamespaceValue {
    /// Static namespace: just its class names.
    Static(String),
    /// Dynamic namespace: class names and CSS variable mappings.
    Dynamic(StylexDynamicInfo),
}

/// The views of a list of selector parts.
pub open spec fn parts_view(p: Seq<SelectorPart>) -> Seq<SelectorPartView> {
    p.map_values(|x: SelectorPart| x@)
}

/// The pseudo selector of the parts: `&` followed by every pseudo in order,
/// or none when there is no pseudo.
pub open spec fn pseudo_of(parts: Seq<SelectorPartView>) -> Option<Seq<char>>
    decreases parts.len(),
{
    if parts.len() == 0 {
        None
    } else {
        let before = pseudo_of(parts.drop_last());
        match parts.last() {
            SelectorPartView::Pseudo(s) => Some(
                match before {
                    Some(x) => x + s,
                    None => seq!['&'] + s,
                },
            ),
            SelectorPartView::AtRule { .. } => before,
        }
    }
}

/// The selector once every at-rule of the parts is applied to `start`,
/// outermost first; `None` when some combination can never match.
pub open spec fn fold_at_rules(start: Option<SelectorView>, parts: Seq<SelectorPartView>) -> Option<
    Option<SelectorView>,
>
    decreases parts.len(),
{
    if parts.len() == 0 {
        Some(start)
    } else {
        match fold_at_rules(start, parts.drop_last()) {
            None => None,
            Some(s) => match parts.last() {
                SelectorPartView::AtRule { kind, query } => match nested_at_rule(s, kind, query) {
                    Some(x) => Some(Some(x)),
                    None => None,
                },
                SelectorPartView::Pseudo(_) => Some(s),
            },
        }
    }
}

/// The selector of a leaf style under the given conditions.
pub open spec fn leaf_selector(parts: Seq<SelectorPartView>) -> Option<Option<SelectorView>> {
    fold_at_rules(
        match pseudo_of(parts) {
            Some(p) => Some(SelectorView::Selector(p)),
            None => None,
        },
        parts,
    )
}

/// A leaf style under `parent_selectors`, or `None` when those conditions
/// can never match together (e.g. `@media print` inside `@media screen`).
pub fn decomposed_leaf(css_property: &str, value: Option<String>, parent_selectors: &[SelectorPart]) -> (r:
    Option<DecomposedStyle>)
    ensures
        match r {
            Some(d) => {
                &&& leaf_selector(parts_view(parent_selectors@)) == Some(selector_view(d.selector))
                &&& d.property@ == css_property@
                &&& string_view(d.value) == string_view(value)
            },
            None => leaf_selector(parts_view(parent_selectors@)).is_none(),
        },
{
    let ghost parts = parts_view(parent_selectors@);
    let mut pseudo: Option<String> = None;
    let mut i: usize = 0;
    while i < parent_selectors.len()
        invariant
            i <= parent_selectors@.len(),
            parts == parts_view(parent_selectors@),
            string_view(pseudo) == pseudo_of(parts.take(i as int)),
        decreases parent_selectors@.len() - i,
    {
        proof {
            assert(parts.take(i + 1).drop_last() == parts.take(i as int));
        }
        match &parent_selectors[i] {
            SelectorPart::Pseudo(s) => {
                let mut acc = match pseudo {
                    Some(x) => x,
                    None => {
                        let mut a = String::new();
                        crate::text::push_char(&mut a, '&');
                        a
                    },
                };
                push_str(&mut acc, s.as_str());
                pseudo = Some(acc);
            },
            SelectorPart::AtRule { .. } => {},
        }
        i = i + 1;
    }
    assert(parts.take(i as int) == parts);
    let mut selector: Option<StyleSelector> = match pseudo {
        Some(p) => Some(StyleSelector::Selector(p)),
        None => None,
    };
    let ghost start = selector_view(selector);
    assert(start == match pseudo_of(parts) {
        Some(p) => Some(SelectorView::Selector(p)),
        None => None,
    });
    let mut j: usize = 0;
    while j < parent_selectors.len()
        invariant
            j <= parent_selectors@.len(),
            parts == parts_view(parent_selectors@),
            fold_at_rules(start, parts.take(j as int)) == Some(selector_view(selector)),
            leaf_selector(parts) == fold_at_rules(start, parts),
        decreases parent_selectors@.len() - j,
    {
        proof {
            assert(parts.take(j + 1).drop_last() == parts.take(j as int));
        }
        match &parent_selectors[j] {
            SelectorPart::AtRule { kind, query } => {
                let parent = selector.as_ref();
                assert(crate::style_selector::opt_selector(parent) == selector_view(selector));
                let nested = StyleSelector::nest_at_rule(parent, *kind, query.as_str());
                match nested {
                    Some(x) => {
                        selector = Some(x);
                    },
                    None => {
                        proof {
                            assert(parts.take(j + 1).last() == parts[j as int]);
                            assert(parts[j as int] == SelectorPartView::AtRule { kind: *kind, query: query@ });
                            assert(fold_at_rules(start, parts.take(j + 1)).is_none());
                            lemma_fold_dropped(start, parts, j as int);
                        }
                        return None;
                    },
                }
            },
            SelectorPart::Pseudo(_) => {},
        }
        j = j + 1;
    }
    assert(parts.take(j as int) == parts);
    Some(DecomposedStyle { property: css_property.to_string(), value, selector })
}

/// Once the fold drops the style, it stays dropped.
proof fn lemma_fold_dropped(start: Option<SelectorView>, parts: Seq<SelectorPartView>, j: int)
    requires
        0 <= j < parts.len(),
        fold_at_rules(start, parts.take(j + 1)).is_none(),
    ensures
        fold_at_rules(start, parts).is_none(),
    decreases parts.len() - j,
{
    if j + 1 < parts.len() {
        assert(parts.take(j + 2).drop_last() == parts.take(j + 1));
        lemma_fold_dropped(start, parts, j + 1);
    } else {
        assert(parts.take(j + 1) == parts);
    }
}

/// The kind and (trimmed) query of an at-rule key such as
/// `@media (max-width: 600px)`.
pub open spec fn at_rule_key(key: Seq<char>) -> Option<(AtRuleKind, Seq<char>)> {
    if starts(key, "@media"@) {
        Some((AtRuleKind::Media, trim(key.skip(6))))
    } else if starts(key, "@supports"@) {
        Some((AtRuleKind::Supports, trim(key.skip(9))))
    } else if starts(key, "@container"@) {
        Some((AtRuleKind::Container, trim(key.skip(10))))
    } else {
        None
    }
}

fn strip_and_trim(v: &Vec<char>, prefix: &str, n: usize) -> (r: Option<String>)
    requires
        prefix@.len() == n,
    ensures
        match r {
            Some(q) => starts(v@, prefix@) && q@ == trim(v@.skip(n as int)),
            None => !starts(v@, prefix@),
        },
{
    let p = chars_of(prefix);
    if !crate::text::starts_with_at(v, 0, &p) {
        proof {
            if starts(v@, prefix@) {
                assert(v@.subrange(0, n as int) == v@.take(n as int));
            }
        }
        return None;
    }
    assert(v@.subrange(0, n as int) == v@.take(n as int));
    let mut rest: Vec<char> = Vec::new();
    crate::text::push_range(&mut rest, v, n, v.len());
    assert(rest@ == v@.skip(n as int));
    let rs = string_from(&rest);
    let mut out: Vec<char> = Vec::new();
    push_trimmed(&mut out, rs.as_str());
    Some(string_from(&out))
}

/// Parse an at-rule key like `@media (max-width: 600px)` into kind and query.
pub fn parse_at_rule_key(key: &str) -> (r: Option<(AtRuleKind, String)>)
    ensures
        match r {
            Some((k, q)) => at_rule_key(key@) == Some((k, q@)),
            None => at_rule_key(key@).is_none(),
        },
{
    let v = chars_of(key);
    proof {
        reveal_strlit("@media");
        reveal_strlit("@supports");
        reveal_strlit("@container");
    }
    match strip_and_trim(&v, "@media", 6) {
        Some(q) => {
            return Some((AtRuleKind::Media, q));
        },
        None => {},
    }
    match strip_and_trim(&v, "@supports", 9) {
        Some(q) => {
            return Some((AtRuleKind::Supports, q));
        },
        None => {},
    }
    match strip_and_trim(&v, "@container", 10) {
        Some(q) => Some((AtRuleKind::Container, q)),
        None => None,
    }
}

} // verus!
