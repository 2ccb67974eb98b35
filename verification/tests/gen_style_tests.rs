use devup_css::class_expr::Expr;
use devup_css::debug::set_debug;
use devup_css::extract_style::{ExtractDynamicStyle, ExtractStaticStyle, ExtractStyleValue};
use devup_css::gen_class_name::StyleProp;
use devup_css::gen_style::{gen_style, gen_styles};
use devup_css::state::CssState;

fn dynamic(property: &str, identifier: &str) -> StyleProp {
    StyleProp::Static(ExtractStyleValue::Dynamic(ExtractDynamicStyle::new(property, 0, identifier, None)))
}

fn fixed(property: &str, value: &str) -> StyleProp {
    StyleProp::Static(ExtractStyleValue::Static(ExtractStaticStyle::new(property, value, 0, None)))
}

fn id(v: &str) -> Expr {
    Expr::Ident(v.to_string())
}

fn shown(v: &Option<Vec<(String, Expr)>>) -> String {
    format!("{v:?}")
}

fn debug_state() -> CssState {
    let mut st = CssState::new();
    set_debug(&mut st, true);
    st
}

#[test]
fn dynamic_styles_set_their_variables_greatest_key_first() {
    let mut st = debug_state();
    let props = vec![dynamic("color", "c"), dynamic("margin", "m"), fixed("padding", "0")];
    let r = gen_styles(&mut st, &props, None);
    let expected = vec![("--margin-0-".to_string(), id("m")), ("--color-0-".to_string(), id("c"))];
    assert_eq!(shown(&r), shown(&Some(expected)));
}

#[test]
fn no_variables_no_style_object() {
    let mut st = debug_state();
    assert_eq!(shown(&gen_styles(&mut st, &vec![fixed("padding", "0")], None)), "None");
    assert_eq!(shown(&gen_styles(&mut st, &vec![], None)), "None");
}

#[test]
fn conditional_branches() {
    let mut st = debug_state();
    let one = StyleProp::Conditional { condition: id("c"), consequent: Some(Box::new(dynamic("color", "x"))), alternate: None };
    let r = gen_style(&mut st, &one, None);
    let undefined = id("undefined");
    let expected = vec![("--color-0-".to_string(), Expr::Cond(Box::new(id("c")), Box::new(id("x")), Box::new(undefined)))];
    assert_eq!(format!("{r:?}"), format!("{expected:?}"));

    let both = StyleProp::Conditional {
        condition: id("c"),
        consequent: Some(Box::new(dynamic("color", "x"))),
        alternate: Some(Box::new(StyleProp::StaticArray(vec![dynamic("color", "y"), dynamic("width", "w")]))),
    };
    let r = gen_style(&mut st, &both, None);
    let expected = vec![
        ("--width-0-".to_string(), id("w")),
        ("--color-0-".to_string(), Expr::Cond(Box::new(id("c")), Box::new(id("x")), Box::new(id("y")))),
    ];
    assert_eq!(format!("{r:?}"), format!("{expected:?}"));
}

#[test]
fn member_props_group_by_variable() {
    let mut st = debug_state();
    let p = StyleProp::MemberExpression {
        map: vec![
            ("lg".to_string(), Box::new(dynamic("color", "a"))),
            ("sm".to_string(), Box::new(StyleProp::StaticArray(vec![dynamic("color", "b"), dynamic("width", "w")]))),
        ],
        expression: id("size"),
    };
    let r = gen_style(&mut st, &p, None);
    let expected = vec![
        ("--width-0-".to_string(), id("w")),
        (
            "--color-0-".to_string(),
            Expr::IdentMember(vec![("lg".to_string(), id("a")), ("sm".to_string(), id("b"))], Box::new(id("size"))),
        ),
    ];
    assert_eq!(format!("{r:?}"), format!("{expected:?}"));
}
