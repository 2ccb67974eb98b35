use devup_css::class_expr::Expr;
use devup_css::extract_style::{ExtractImport, ExtractStaticStyle, ExtractStyleValue};
use devup_css::gen_class_name::{gen_class_names, StyleProp};
use devup_css::state::CssState;

fn st(property: &str, value: &str) -> StyleProp {
    StyleProp::Static(ExtractStyleValue::Static(ExtractStaticStyle::new(property, value, 0, None)))
}

fn s(v: &str) -> Expr {
    Expr::Str(v.to_string())
}

fn id(v: &str) -> Expr {
    Expr::Ident(v.to_string())
}

fn shown(e: &Option<Expr>) -> String {
    format!("{e:?}")
}

#[test]
fn props_are_named_from_the_last() {
    let mut state = CssState::new();
    let mut props = vec![st("color", "red"), st("margin", "0")];
    let r = gen_class_names(&mut state, &mut props, None, None);
    assert_eq!(shown(&r), shown(&Some(s("a b"))));
    let mut again = vec![st("margin", "0")];
    assert_eq!(shown(&gen_class_names(&mut state, &mut again, None, None)), shown(&Some(s("a"))));
}

#[test]
fn conditional_props() {
    let mut state = CssState::new();
    let mut props = vec![StyleProp::Conditional {
        condition: id("c"),
        consequent: Some(Box::new(st("color", "red"))),
        alternate: None,
    }];
    let r = gen_class_names(&mut state, &mut props, None, None);
    assert_eq!(shown(&r), shown(&Some(Expr::Cond(Box::new(id("c")), Box::new(s("a")), Box::new(s(""))))));

    let mut same = vec![StyleProp::Conditional {
        condition: id("c"),
        consequent: Some(Box::new(st("color", "red"))),
        alternate: Some(Box::new(st("color", "red"))),
    }];
    assert_eq!(shown(&gen_class_names(&mut state, &mut same, None, None)), shown(&Some(s("a"))));
}

#[test]
fn expressions_join_the_class_names() {
    let mut state = CssState::new();
    let mut props = vec![st("color", "red"), StyleProp::Expression { styles: vec![], expression: id("x") }];
    let r = gen_class_names(&mut state, &mut props, None, None);
    let expected = Expr::Template(vec!["a ".to_string(), String::new()], vec![id("x")]);
    assert_eq!(shown(&r), shown(&Some(expected)));
}

#[test]
fn enum_and_member_props() {
    let mut state = CssState::new();
    let mut props = vec![StyleProp::Enum {
        condition: id("size"),
        map: vec![("lg".to_string(), vec![st("width", "1px")]), ("sm".to_string(), vec![st("width", "2px")])],
    }];
    let r = gen_class_names(&mut state, &mut props, None, None);
    let member = Expr::Member(vec![("lg".to_string(), s("a")), ("sm".to_string(), s("b"))], Box::new(id("size")));
    assert_eq!(shown(&r), shown(&Some(Expr::OrEmpty(Box::new(member)))));

    let mut by_other = vec![StyleProp::MemberExpression {
        map: vec![("lg".to_string(), Box::new(st("width", "1px")))],
        expression: Expr::Other("a.b".to_string()),
    }];
    let r = gen_class_names(&mut state, &mut by_other, None, None);
    let member = Expr::Member(vec![("lg".to_string(), s("a"))], Box::new(Expr::Other("a.b".to_string())));
    assert_eq!(shown(&r), shown(&Some(member)));
}

#[test]
fn style_order_is_given_to_static_styles() {
    let mut state = CssState::new();
    let mut props = vec![st("color", "red")];
    let _ = gen_class_names(&mut state, &mut props, Some(3), None);
    match &props[0] {
        StyleProp::Static(ExtractStyleValue::Static(style)) => assert_eq!(style.style_order(), Some(3)),
        _ => panic!("expected a static style"),
    }
}

#[test]
fn props_hold_their_styles_in_order() {
    let prop = StyleProp::StaticArray(vec![
        st("color", "red"),
        StyleProp::Conditional {
            condition: id("c"),
            consequent: Some(Box::new(st("margin", "0"))),
            alternate: Some(Box::new(st("padding", "1px"))),
        },
        StyleProp::Enum {
            condition: id("size"),
            map: vec![("lg".to_string(), vec![st("width", "1px")]), ("sm".to_string(), vec![st("width", "2px")])],
        },
        StyleProp::MemberExpression {
            map: vec![("a".to_string(), Box::new(st("top", "0")))],
            expression: id("k"),
        },
    ]);
    let props: Vec<(String, String)> = prop
        .extract()
        .iter()
        .map(|v| match v {
            ExtractStyleValue::Static(s) => (s.property().to_string(), s.value().to_string()),
            other => panic!("unexpected {other:?}"),
        })
        .collect();
    let expected: Vec<(String, String)> = [
        ("color", "red"),
        ("margin", "0"),
        ("padding", "1px"),
        ("width", "1px"),
        ("width", "2px"),
        ("top", "0"),
    ]
    .iter()
    .map(|(p, v)| (p.to_string(), v.to_string()))
    .collect();
    assert_eq!(props, expected);
}

#[test]
fn imports_give_no_class_name() {
    let import = || {
        StyleProp::Static(ExtractStyleValue::Import(ExtractImport {
            url: "https://example.com/a.css".to_string(),
            file: "index.tsx".to_string(),
        }))
    };
    let mut state = CssState::new();
    assert!(import().extract().len() == 1);
    let mut only = vec![import()];
    assert_eq!(shown(&gen_class_names(&mut state, &mut only, None, None)), shown(&None));
    let mut mixed = vec![import(), st("color", "red")];
    assert_eq!(shown(&gen_class_names(&mut state, &mut mixed, None, None)), shown(&Some(s("a"))));
    let mut direct = ExtractStyleValue::Import(ExtractImport { url: "x.css".to_string(), file: "f".to_string() });
    direct.set_style_order(3);
    assert!(direct.extract(&mut state, None).is_none());
    assert_eq!(
        direct,
        ExtractStyleValue::Import(ExtractImport { url: "x.css".to_string(), file: "f".to_string() })
    );
}
