use std::cmp::Ordering;
use devup_css::style_selector::{
    get_selector_order, global_selector_order, optimize_selector, write_at_rule, AtRule, AtRuleKind,
    StyleSelector,
};

fn at(kind: AtRuleKind, query: &str, selector: Option<&str>) -> StyleSelector {
    StyleSelector::At {
        kind,
        query: query.to_string(),
        selector: selector.map(str::to_string),
        outer: vec![],
        file: None,
    }
}

#[test]
fn selectors_from_names() {
    let cases = [
        ("hover", "&:hover"),
        ("focusVisible", "&:focus-visible"),
        ("group-hover", ":is([role=group],[data-group]):hover &"),
        ("group-focus-visible", ":is([role=group],[data-group]):focus-visible &"),
        ("group-1", ":is([role=group],[data-group]):1 &"),
        ("theme-light", ":root[data-theme=light] &"),
        ("*[aria=disabled='true'] &:hover", "*[aria=disabled='true'] &:hover"),
        ("placeholder", "&::placeholder"),
        ("speech", "&:speech"),
    ];
    for (input, expected) in cases {
        assert_eq!(StyleSelector::from_name(input), StyleSelector::Selector(expected.to_string()), "{input}");
    }
}

#[test]
fn selectors_from_pairs() {
    assert_eq!(
        StyleSelector::from_pair(["theme-dark", "placeholder"]),
        StyleSelector::Selector(":root[data-theme=dark] &::placeholder".to_string())
    );
    assert_eq!(
        StyleSelector::from_pair(["theme-dark", "&:hover"]),
        StyleSelector::Selector(":root[data-theme=dark] &:hover".to_string())
    );
}

#[test]
fn test_media_shorthand_selector() {
    assert_eq!(
        StyleSelector::from_name("motion-reduce"),
        at(AtRuleKind::Media, "(prefers-reduced-motion:reduce)", None)
    );
    assert_eq!(StyleSelector::from_name("print"), at(AtRuleKind::Media, "print", None));
    assert_eq!(StyleSelector::from_name("speech"), StyleSelector::Selector("&:speech".to_string()));
}

#[test]
fn selector_display() {
    let cases = [
        (StyleSelector::Selector("&:hover".to_string()), "&:hover"),
        (at(AtRuleKind::Media, "screen and (max-width: 600px)", None), "@media screen and (max-width: 600px)"),
        (at(AtRuleKind::Supports, "(display: grid)", None), "@supports(display: grid)"),
        (at(AtRuleKind::Container, "(min-width: 768px)", None), "@container(min-width: 768px)"),
        (at(AtRuleKind::Container, "sidebar (min-width: 400px)", None), "@container sidebar (min-width: 400px)"),
        (
            StyleSelector::Global(":root[data-theme=dark]".to_string(), "file.rs".to_string()),
            ":root[data-theme=dark]",
        ),
        (at(AtRuleKind::Layer, "reset", None), "@layer reset"),
    ];
    for (selector, expected) in cases {
        assert_eq!(selector.to_string(), expected);
        assert_eq!(selector.as_class_str(), expected);
    }
}

#[test]
fn test_nested_at_rule_display_and_order() {
    let nested = StyleSelector::At {
        kind: AtRuleKind::Supports,
        query: "(display:grid)".to_string(),
        selector: Some("&:hover".to_string()),
        outer: vec![AtRule { kind: AtRuleKind::Media, query: "print".to_string() }],
        file: None,
    };
    assert_eq!(nested.to_string(), "@media print @supports(display:grid) &:hover");
    assert_eq!(nested.as_class_str(), "@media print @supports(display:grid) &:hover");

    let plain = at(AtRuleKind::Supports, "(display:grid)", Some("&:hover"));
    assert_eq!(plain.compare(&nested), Ordering::Less);
    let global = StyleSelector::At {
        kind: AtRuleKind::Supports,
        query: "(display:grid)".to_string(),
        selector: Some("&:hover".to_string()),
        outer: vec![],
        file: Some("a.tsx".to_string()),
    };
    assert_eq!(plain.compare(&global), Ordering::Less);
    assert_eq!(
        optimize_selector(global.clone()),
        global,
        "optimizing keeps the enclosing rules and file"
    );
}

#[test]
fn at_rule_prelude() {
    let mut out = String::new();
    write_at_rule(&mut out, AtRuleKind::Media, "print");
    assert_eq!(out, "@media print");
    let mut out = String::new();
    write_at_rule(&mut out, AtRuleKind::Media, "(min-width:1px)");
    assert_eq!(out, "@media(min-width:1px)");
}

#[test]
fn at_rule_kind_names() {
    for (kind, name) in [
        (AtRuleKind::Media, "media"),
        (AtRuleKind::Supports, "supports"),
        (AtRuleKind::Container, "container"),
        (AtRuleKind::Layer, "layer"),
    ] {
        assert_eq!(kind.as_str(), name);
        assert_eq!(AtRuleKind::from_name(name), kind);
    }
}

#[test]
fn selector_orders() {
    let cases = [
        ("&:hover", 0),
        ("&:focus-visible", 1),
        ("&:focus", 2),
        ("&:active", 3),
        ("&:selected", 4),
        ("&:disabled", 5),
        ("&:not-exist", 99),
        ("&:not-exist, &:hover", 0),
        (":root[data-theme=dark] &:hover", 0),
        (":root[data-theme=dark] &:focus-visible", 1),
        (":root[data-theme=dark] &:focus", 2),
        (":root[data-theme=dark] &:active", 3),
        (":root[data-theme=dark] &:selected", 4),
        (":root[data-theme=dark] &:disabled", 5),
        (":root[data-theme=dark] &:not-exist", 99),
        ("*[role=group]:hover &", 0),
        ("*[role=group]:focus-visible &", 1),
        ("*[role=group]:focus &", 2),
        ("*[role=group]:active &", 3),
        ("*[role=group]:selected &", 4),
        ("*[role=group]:disabled &", 5),
        ("*[role=group]:not-exist &", 99),
        (":is([role=group],[data-group]):hover &", 0),
        (":is([role=group],[data-group]):focus-visible &", 1),
        (":is([role=group],[data-group]):focus &", 2),
        (":is([role=group],[data-group]):active &", 3),
        (":is([role=group],[data-group]):selected &", 4),
        (":is([role=group],[data-group]):disabled &", 5),
        (":is([role=group],[data-group]):not-exist &", 99),
    ];
    for (selector, expected) in cases {
        assert_eq!(get_selector_order(selector), expected, "{selector}");
    }
}

#[test]
fn global_orders() {
    assert_eq!(global_selector_order(":hover"), 0);
    assert_eq!(global_selector_order(":focus-visible"), 2);
    assert_eq!(global_selector_order(":active:disabled"), 5);
    assert_eq!(global_selector_order(""), 0);
}

#[test]
fn nest_selectors() {
    assert_eq!(StyleSelector::nest_selector(None, "&:hover"), StyleSelector::Selector("&:hover".to_string()));
    assert_eq!(
        StyleSelector::nest_selector(Some(&StyleSelector::Selector("&:hover".to_string())), ":root[data-theme=dark] &"),
        StyleSelector::Selector(":root[data-theme=dark] &:hover".to_string())
    );
    assert_eq!(
        StyleSelector::nest_selector(
            Some(&StyleSelector::Global("body".to_string(), "a.tsx".to_string())),
            "&:hover"
        ),
        StyleSelector::Global("body:hover".to_string(), "a.tsx".to_string())
    );
    assert_eq!(
        StyleSelector::nest_selector(Some(&at(AtRuleKind::Media, "print", None)), "&:hover"),
        at(AtRuleKind::Media, "print", Some("&:hover"))
    );
    assert_eq!(
        StyleSelector::nest_selector(Some(&at(AtRuleKind::Media, "print", Some("&:focus"))), "&:hover"),
        at(AtRuleKind::Media, "print", Some("&:focus:hover"))
    );
}

#[test]
fn nest_at_rules() {
    assert_eq!(
        StyleSelector::nest_at_rule(None, AtRuleKind::Media, "(prefers-reduced-motion: reduce)"),
        Some(at(AtRuleKind::Media, "(prefers-reduced-motion:reduce)", None))
    );
    assert_eq!(
        StyleSelector::nest_at_rule(Some(&StyleSelector::Selector("&:hover".to_string())), AtRuleKind::Media, "print"),
        Some(at(AtRuleKind::Media, "print", Some("&:hover")))
    );
    assert_eq!(
        StyleSelector::nest_at_rule(
            Some(&StyleSelector::Global("body".to_string(), "a.tsx".to_string())),
            AtRuleKind::Media,
            "print"
        ),
        Some(StyleSelector::At {
            kind: AtRuleKind::Media,
            query: "print".to_string(),
            selector: Some("body".to_string()),
            outer: vec![],
            file: Some("a.tsx".to_string()),
        })
    );
    assert_eq!(
        StyleSelector::nest_at_rule(
            Some(&at(AtRuleKind::Media, "print", Some("&:hover"))),
            AtRuleKind::Media,
            "(prefers-reduced-motion:reduce)"
        ),
        Some(at(AtRuleKind::Media, "print and (prefers-reduced-motion:reduce)", Some("&:hover")))
    );
    assert_eq!(
        StyleSelector::nest_at_rule(Some(&at(AtRuleKind::Media, "print", None)), AtRuleKind::Media, "screen"),
        None
    );
    assert_eq!(
        StyleSelector::nest_at_rule(Some(&at(AtRuleKind::Media, "print", None)), AtRuleKind::Supports, "(display: grid)"),
        Some(StyleSelector::At {
            kind: AtRuleKind::Supports,
            query: "(display:grid)".to_string(),
            selector: None,
            outer: vec![AtRule { kind: AtRuleKind::Media, query: "print".to_string() }],
            file: None,
        })
    );
    assert_eq!(
        StyleSelector::nest_at_rule(
            Some(&at(AtRuleKind::Media, "not print and (color)", None)),
            AtRuleKind::Media,
            "(hover:none)"
        ),
        Some(StyleSelector::At {
            kind: AtRuleKind::Media,
            query: "(hover:none)".to_string(),
            selector: None,
            outer: vec![AtRule { kind: AtRuleKind::Media, query: "not print and (color)".to_string() }],
            file: None,
        })
    );
}

#[test]
fn optimizing_collapses_selector_whitespace() {
    assert_eq!(
        optimize_selector(StyleSelector::Selector("  a   &:hover ".to_string())),
        StyleSelector::Selector("a &:hover".to_string())
    );
}

#[test]
fn selector_ordering() {
    let screen = at(AtRuleKind::Media, "screen", None);
    let hover = StyleSelector::Selector("&:hover".to_string());
    assert_eq!(screen.compare(&hover), Ordering::Greater);
    assert_eq!(hover.compare(&screen), Ordering::Less);
    assert_eq!(
        StyleSelector::from_name("hover").compare(&StyleSelector::from_name("focusVisible")),
        Ordering::Less
    );
    assert_eq!(hover.compare(&StyleSelector::Selector("&:hover".to_string())), Ordering::Equal);
    let g = |s: &str, f: &str| StyleSelector::Global(s.to_string(), f.to_string());
    assert_eq!(g(":root[data-theme=dark]", "file1.rs").compare(&g(":root[data-theme=dark]", "file2.rs")), Ordering::Equal);
    assert_eq!(g("div", "file1.rs").compare(&g("div:hover", "file2.rs")), Ordering::Less);
    assert_eq!(g("div:hover", "file2.rs").compare(&g("div", "file1.rs")), Ordering::Greater);
    assert_eq!(g("div:hover", "file2.rs").compare(&g("span:hover", "file1.rs")), "div".cmp("span"));
    assert_eq!(g("div:hover", "file2.rs").compare(&g("span:focus", "file1.rs")), Ordering::Less);
    assert_eq!(g("div:", "file2.rs").compare(&g("span:", "file1.rs")), "div".cmp("span"));
    assert_eq!(g("div:", "file2.rs").compare(&hover), Ordering::Less);
    assert_eq!(hover.compare(&g("div:", "file2.rs")), Ordering::Greater);
    let gh = StyleSelector::Selector(":is([role=group],[data-group]):hover &".to_string());
    let ga = StyleSelector::Selector(":is([role=group],[data-group]):active &".to_string());
    assert_eq!(gh.compare(&ga), Ordering::Less);
    assert_eq!(ga.compare(&gh), Ordering::Greater);
    assert_eq!(gh.compare(&gh.clone()), Ordering::Equal);
    let nested = StyleSelector::At {
        kind: AtRuleKind::Supports,
        query: "(display:grid)".to_string(),
        selector: Some("&:hover".to_string()),
        outer: vec![AtRule { kind: AtRuleKind::Media, query: "print".to_string() }],
        file: None,
    };
    let plain = at(AtRuleKind::Supports, "(display:grid)", Some("&:hover"));
    assert_eq!(plain.compare(&nested), Ordering::Less);
    let global = StyleSelector::At {
        kind: AtRuleKind::Supports,
        query: "(display:grid)".to_string(),
        selector: Some("&:hover".to_string()),
        outer: vec![],
        file: Some("a.tsx".to_string()),
    };
    assert_eq!(plain.compare(&global), Ordering::Less);
}
