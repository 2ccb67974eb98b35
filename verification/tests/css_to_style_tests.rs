use devup_css::css_to_style::{
    css_to_style, css_to_style_block, keyframes_class, keyframes_to_keyframes_style, write_u64, ExtractKeyframes,
};
use devup_css::extract_style::{ExtractStyleProperty, StyleProperty};
use devup_css::state::CssState;
use devup_css::style_selector::{AtRule, AtRuleKind, StyleSelector};

fn media(query: &str, selector: Option<&str>) -> Option<StyleSelector> {
    Some(StyleSelector::At {
        kind: AtRuleKind::Media,
        query: query.to_string(),
        selector: selector.map(str::to_string),
        outer: vec![],
        file: None,
    })
}

fn triples(css: &str, selector: &Option<StyleSelector>) -> Vec<(String, String, Option<StyleSelector>)> {
    css_to_style(css, 0, selector)
        .into_iter()
        .map(|s| (s.property().to_string(), s.value().to_string(), s.selector().cloned()))
        .collect()
}

fn t(p: &str, v: &str, s: Option<StyleSelector>) -> (String, String, Option<StyleSelector>) {
    (p.to_string(), v.to_string(), s)
}

#[test]
fn declarations_become_sorted_styles() {
    assert_eq!(
        triples("color: red; background: blue;", &None),
        vec![t("background", "blue", None), t("color", "red", None)]
    );
    assert_eq!(triples("margin:0;padding:0;", &None), vec![t("margin", "0", None), t("padding", "0", None)]);
    assert_eq!(triples("", &None), vec![]);
    assert_eq!(triples("color red; ; x", &None), vec![]);
}

#[test]
fn media_blocks() {
    assert_eq!(
        triples("@media (min-width: 768px) {\n border: 1px solid black;\n color: red;\n}", &None),
        vec![
            t("border", "1px solid black", media("(min-width:768px)", None)),
            t("color", "red", media("(min-width:768px)", None)),
        ]
    );
    assert_eq!(
        triples(
            "@media (min-width: 768px) and (max-width: 1024px) { color: red; }\n@media (min-width: 768px) { color: blue; }",
            &None
        ),
        vec![
            t("color", "red", media("(min-width:768px)and (max-width:1024px)", None)),
            t("color", "blue", media("(min-width:768px)", None)),
        ]
    );
}

#[test]
fn nested_selectors_inside_media() {
    assert_eq!(
        triples(
            "@media (min-width: 768px) {\n & { color: red; }\n &:hover,   &:active { color: blue; }\n}",
            &None
        ),
        vec![
            t("color", "red", media("(min-width:768px)", None)),
            t("color", "blue", media("(min-width:768px)", Some("&:hover,&:active"))),
        ]
    );
}

#[test]
fn plain_declarations_before_a_block() {
    assert_eq!(
        triples("color: red; &:hover { color: blue; }", &None),
        vec![
            t("color", "red", None),
            t("color", "blue", Some(StyleSelector::Selector("&:hover".to_string()))),
        ]
    );
    assert_eq!(
        triples("&:hover { color: blue; } margin: 0;", &None),
        vec![
            t("color", "blue", Some(StyleSelector::Selector("&:hover".to_string()))),
            t("margin", "0", None),
        ]
    );
}

#[test]
fn blocks_keep_the_enclosing_at_rule() {
    let outer = Some(StyleSelector::At {
        kind: AtRuleKind::Supports,
        query: "(display:grid)".to_string(),
        selector: None,
        outer: vec![AtRule { kind: AtRuleKind::Media, query: "print".to_string() }],
        file: None,
    });
    assert_eq!(
        triples("&:hover { color: red; }", &outer),
        vec![t(
            "color",
            "red",
            Some(StyleSelector::At {
                kind: AtRuleKind::Supports,
                query: "(display:grid)".to_string(),
                selector: Some("&:hover".to_string()),
                outer: vec![AtRule { kind: AtRuleKind::Media, query: "print".to_string() }],
                file: None,
            })
        )]
    );
}

#[test]
fn multi_values_in_blocks() {
    let styles = css_to_style_block("font-family: 'Roboto', sans-serif; /* x */ color : red", 2, &None);
    assert_eq!(styles.len(), 2);
    assert_eq!(styles[0].property(), "font-family");
    assert_eq!(styles[0].value(), "Roboto,sans-serif");
    assert_eq!(styles[0].level(), 2);
    assert_eq!(styles[1].property(), "color");
    assert_eq!(styles[1].value(), "red");
}

fn frames(input: &str, expected: Vec<(&str, Vec<(&str, &str)>)>) {
    let styles = keyframes_to_keyframes_style(input);
    assert_eq!(styles.len(), expected.len(), "{input}");
    for (key, props) in expected {
        let got = styles.get(key).unwrap_or_else(|| panic!("{key} missing in {input}"));
        let mut result: Vec<(&str, &str)> = got.iter().map(|p| (p.property(), p.value())).collect();
        result.sort_unstable();
        let mut want = props.clone();
        want.sort_unstable();
        assert_eq!(result, want, "{input}");
    }
}

#[test]
fn test_keyframes_to_keyframes_style() {
    frames(
        "to {\nbackground-color:red;\n}\nfrom {\nbackground-color:blue;\n}",
        vec![("to", vec![("background-color", "red")]), ("from", vec![("background-color", "blue")])],
    );
    frames("0% { opacity: 0; }\n100% { opacity: 1; }", vec![("0%", vec![("opacity", "0")]), ("100%", vec![("opacity", "1")])]);
    frames("from { left: 0; }\nto { left: 100px; }", vec![("from", vec![("left", "0")]), ("to", vec![("left", "100px")])]);
    frames("50% { color: red; background: blue; }", vec![("50%", vec![("color", "red"), ("background", "blue")])]);
    frames("", vec![]);
    frames("50% { color: red        ; background: blue; }", vec![("50%", vec![("color", "red"), ("background", "blue")])]);
    frames("50% { color: red; /*background: blue;*/ }", vec![("50%", vec![("color", "red")])]);
    frames("50% { color: red        ; background: blue ", vec![]);
}

#[test]
fn keyframes_later_block_replaces_same_key() {
    frames("a { color: red; } a { color: blue; }", vec![("a", vec![("color", "blue")])]);
}

#[test]
fn keyframes_are_named_by_their_hash() {
    let spin = ExtractKeyframes { keyframes: keyframes_to_keyframes_style("from { opacity: 0; } to { opacity: 1; }") };
    let fade = ExtractKeyframes { keyframes: keyframes_to_keyframes_style("from { opacity: 1; } to { opacity: 0; }") };
    let mut st = CssState::new();
    let a = spin.extract(&mut st, None);
    let b = spin.extract(&mut st, None);
    let c = fade.extract(&mut st, None);
    assert_eq!(a, StyleProperty::ClassName("a".to_string()));
    assert_eq!(a, b);
    assert_eq!(c, StyleProperty::ClassName("b".to_string()));

    let mut dbg = CssState::new();
    dbg.debug = true;
    match spin.extract(&mut dbg, None) {
        StyleProperty::ClassName(n) => {
            assert!(n.starts_with("k-"));
            assert!(n[2..].chars().all(|ch| ch.is_ascii_digit()));
        },
        other => panic!("{other:?}"),
    }
    assert_eq!(keyframes_class(&mut dbg, 42, None), StyleProperty::ClassName("k-42".to_string()));
    assert_eq!(write_u64(0), "0");
    assert_eq!(write_u64(18446744073709551615), "18446744073709551615");
}

#[test]
fn keyframes_keys_come_in_key_order() {
    let frames = keyframes_to_keyframes_style("to { left: 1px; } from { left: 0; } 50% { left: 2px; }");
    let keys: Vec<String> = (0..frames.len()).map(|i| frames.key_at(i).iter().collect()).collect();
    assert_eq!(keys, vec!["50%".to_string(), "from".to_string(), "to".to_string()]);
}
