use devup_css::style_selector::{AtRuleKind, StyleSelector};
use devup_css::stylex::{
    css_variable_block, decomposed_leaf, normalize_stylex_property, parse_at_rule_key, SelectorPart,
    StylexFunction,
};

#[test]
fn test_normalize_stylex_property() {
    assert_eq!(normalize_stylex_property("backgroundColor"), "background-color");
    assert_eq!(normalize_stylex_property("fontSize"), "font-size");
    assert_eq!(normalize_stylex_property("color"), "color");
    assert_eq!(normalize_stylex_property("zIndex"), "z-index");
}

#[test]
fn stylex_functions_by_export_name() {
    assert_eq!(StylexFunction::from_export_name("create"), Some(StylexFunction::Create));
    assert_eq!(StylexFunction::from_export_name("props"), Some(StylexFunction::Props));
    assert_eq!(StylexFunction::from_export_name("defineVars"), Some(StylexFunction::DefineVars));
    assert_eq!(
        StylexFunction::from_export_name("viewTransitionClass"),
        Some(StylexFunction::ViewTransitionClass)
    );
    assert_eq!(StylexFunction::from_export_name("Create"), None);
    assert_eq!(StylexFunction::from_export_name(""), None);
}

#[test]
fn variable_blocks() {
    assert_eq!(
        css_variable_block(
            ":root",
            &[("--a".to_string(), "red".to_string()), ("--b".to_string(), "1px".to_string())]
        ),
        ":root{--a:red;--b:1px;}"
    );
    assert_eq!(css_variable_block(".x", &[]), ".x{}");
}

#[test]
fn at_rule_keys() {
    assert_eq!(
        parse_at_rule_key("@media (max-width: 600px)"),
        Some((AtRuleKind::Media, "(max-width: 600px)".to_string()))
    );
    assert_eq!(
        parse_at_rule_key("@supports (display:grid)"),
        Some((AtRuleKind::Supports, "(display:grid)".to_string()))
    );
    assert_eq!(
        parse_at_rule_key("@container  card "),
        Some((AtRuleKind::Container, "card".to_string()))
    );
    assert_eq!(parse_at_rule_key(":hover"), None);
    assert_eq!(parse_at_rule_key("@layer x"), None);
}

fn media(q: &str) -> SelectorPart {
    SelectorPart::AtRule { kind: AtRuleKind::Media, query: q.to_string() }
}

#[test]
fn leaf_without_conditions_has_no_selector() {
    let d = decomposed_leaf("color", Some("red".to_string()), &[]).unwrap();
    assert_eq!(d.property, "color");
    assert_eq!(d.value, Some("red".to_string()));
    assert_eq!(d.selector, None);
}

#[test]
fn leaf_folds_every_at_rule_around_the_pseudo() {
    let parts = [media("print"), SelectorPart::Pseudo(":hover".to_string()), media("(prefers-reduced-motion:reduce)")];
    let d = decomposed_leaf("color", Some("blue".to_string()), &parts).unwrap();
    assert_eq!(d.value, Some("blue".to_string()));
    assert_eq!(
        d.selector.map(|s| s.to_string()),
        Some("@media print and (prefers-reduced-motion:reduce) &:hover".to_string())
    );
}

#[test]
fn leaf_under_exclusive_media_is_dropped() {
    let parts = [media("print"), SelectorPart::Pseudo(":hover".to_string()), media("screen")];
    assert!(decomposed_leaf("color", Some("green".to_string()), &parts).is_none());
}

#[test]
fn leaf_with_pseudos_only() {
    let parts = [SelectorPart::Pseudo(":hover".to_string()), SelectorPart::Pseudo("::after".to_string())];
    let d = decomposed_leaf("color", None, &parts).unwrap();
    assert_eq!(d.value, None);
    assert_eq!(d.selector, Some(StyleSelector::Selector("&:hover::after".to_string())));
}
