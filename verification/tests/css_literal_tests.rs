use devup_css::css_literal::{css_to_style_literal, CssTemplate, CssToStyleResult, TemplateExpression};
use devup_css::optimize_value::{value_colors, value_finished, value_spacing, ValuePatterns};
use devup_css::style_selector::{AtRuleKind, StyleSelector};

fn lit(v: &str) -> TemplateExpression {
    TemplateExpression { literal: Some(v.to_string()), code: v.to_string() }
}

fn code(c: &str) -> TemplateExpression {
    TemplateExpression { literal: None, code: c.to_string() }
}

fn template(quasis: &[&str], expressions: Vec<TemplateExpression>) -> CssTemplate {
    CssTemplate { quasis: quasis.iter().map(|q| q.to_string()).collect(), expressions }
}

/// (property, value or identifier, selector, dynamic?)
fn read(t: &CssTemplate) -> Vec<(String, String, Option<StyleSelector>, bool)> {
    let mut out: Vec<(String, String, Option<StyleSelector>, bool)> = css_to_style_literal(t, 0, &None)
        .iter()
        .map(|r| match r {
            CssToStyleResult::Static(s) => (s.property().to_string(), s.value().to_string(), s.selector().cloned(), false),
            CssToStyleResult::Dynamic(d) => {
                (d.property().to_string(), d.identifier().to_string(), d.selector().cloned(), true)
            },
        })
        .collect();
    out.sort_by(|a, b| (&a.0, &a.1, a.3).cmp(&(&b.0, &b.1, b.3)));
    out
}

fn s(p: &str, v: &str) -> (String, String, Option<StyleSelector>, bool) {
    (p.to_string(), v.to_string(), None, false)
}

fn d(p: &str, v: &str) -> (String, String, Option<StyleSelector>, bool) {
    (p.to_string(), v.to_string(), None, true)
}

#[test]
fn literal_interpolations_stay_static() {
    assert_eq!(read(&template(&["width: ", "px;"], vec![lit("1")])), vec![s("width", "1px")]);
    assert_eq!(read(&template(&["width: ", ";"], vec![lit("1px")])), vec![s("width", "1px")]);
    assert_eq!(read(&template(&["width: ", "", "px;"], vec![lit("1"), lit("2")])), vec![s("width", "12px")]);
}

#[test]
fn code_interpolations_become_template_literals() {
    assert_eq!(read(&template(&["width: ", "px;"], vec![code("1+1")])), vec![d("width", "`${1+1}px`")]);
    assert_eq!(read(&template(&["width: ", "px;"], vec![code("func(1)")])), vec![d("width", "`${func(1)}px`")]);
    assert_eq!(
        read(&template(&["width: ", "", "px;"], vec![code("func(1)"), lit("2")])),
        vec![d("width", "`${func(1)}${2}px`")]
    );
}

#[test]
fn a_lone_interpolation_is_its_code() {
    assert_eq!(read(&template(&["width: ", ";"], vec![code("func(1)")])), vec![d("width", "func(1)")]);
    assert_eq!(read(&template(&["color: ", " !important;"], vec![code("c")])), vec![d("color", "`${c}`")]);
}

#[test]
fn static_parts_without_interpolations() {
    assert_eq!(
        read(&template(&["background-color: red; color: blue;"], vec![])),
        vec![s("background-color", "red"), s("color", "blue")]
    );
    let r = read(&template(&["&:hover { background-color: red; }"], vec![]));
    assert_eq!(
        r,
        vec![(
            "background-color".to_string(),
            "red".to_string(),
            Some(StyleSelector::Selector("&:hover".to_string())),
            false
        )]
    );
}

#[test]
fn interpolation_inside_an_at_rule() {
    let r = read(&template(&["@supports (display: grid) { width: ", "px; }"], vec![code("w")]));
    assert_eq!(r.len(), 1);
    assert_eq!(r[0].0, "width");
    assert_eq!(r[0].1, "`${w}px`");
    assert!(r[0].3);
    match &r[0].2 {
        Some(StyleSelector::At { kind, .. }) => assert_eq!(*kind, AtRuleKind::Supports),
        other => panic!("unexpected selector {other:?}"),
    }
}

#[test]
fn property_placeholders_are_dropped() {
    assert_eq!(read(&template(&["", ": red; color: blue;"], vec![code("p")])), vec![s("color", "blue")]);
}

#[test]
fn unregistered_markers_are_kept() {
    assert_eq!(
        read(&template(&["width: __EXPR_7__ ", ";"], vec![code("x")])),
        vec![d("width", "`__EXPR_7__ ${x}`")]
    );
}

#[test]
fn broken_template_gives_nothing() {
    assert_eq!(read(&template(&["@media (min-width: 768px) {\n & {\n"], vec![])), vec![]);
}

#[test]
fn multi_value_properties_are_optimized_before_resolution() {
    assert_eq!(
        read(&template(&["content: __EXPR_7__ ", ";"], vec![code("x")])),
        vec![d("content", "`\"__EXPR_7__ ${x}\"`")]
    );
}

// Static values come out as written; the value stages normalize them (no
// `rgba()` or math function occurs here, so the float and `0%` steps do not
// apply).
#[test]
fn static_values_then_normalized() {
    let p = ValuePatterns::new().expect("patterns compile");
    let normalized: Vec<(String, String, Option<StyleSelector>, bool)> =
        read(&template(&["border: 1px solid #000; color: #fff;"], vec![]))
            .into_iter()
            .map(|(prop, v, sel, dynamic)| {
                let (colored, _) = value_colors(&p, &value_spacing(&p, &v));
                (prop, value_finished(&colored), sel, dynamic)
            })
            .collect();
    assert_eq!(normalized, vec![s("border", "1px solid #000"), s("color", "#FFF")]);
}
