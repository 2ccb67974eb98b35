use devup_css::class_names::{push_class_segment, replace_classes_in_string};
use devup_css::extract_style::{apply_style_order_to_styles, ExtractDynamicStyle, ExtractStaticStyle, ExtractStyleValue};
use devup_css::optimize_value::optimize_color;

#[test]
fn class_segments() {
    let mut classes = String::new();
    push_class_segment(&mut classes, "");
    assert_eq!(classes, "");
    push_class_segment(&mut classes, "a");
    push_class_segment(&mut classes, "");
    push_class_segment(&mut classes, "b c");
    assert_eq!(classes, "a b c");
}

#[test]
fn longer_classes_are_replaced_first() {
    let (t3xl, g1) = ("text-3xl".to_string(), "a".to_string());
    let (t3, g2) = ("text-3".to_string(), "b".to_string());
    let sorted = [(&t3xl, &g1), (&t3, &g2)];
    assert_eq!(replace_classes_in_string("text-3xl text-3 p-1", &sorted), "a b p-1");
    assert_eq!(replace_classes_in_string("nothing here", &sorted), "nothing here");
    let (e, x) = (String::new(), "-".to_string());
    assert_eq!(replace_classes_in_string("ab", &[(&e, &x)]), "-a-b-");
}

#[test]
fn style_order_is_applied_to_every_style() {
    let mut styles = vec![
        ExtractStyleValue::Static(ExtractStaticStyle::new("color", "red", 0, None)),
        ExtractStyleValue::Static(ExtractStaticStyle::new_basic("margin", "0", 0, None)),
        ExtractStyleValue::Dynamic(ExtractDynamicStyle::new("width", 0, "w", None)),
        ExtractStyleValue::Typography("h1".to_string()),
    ];
    apply_style_order_to_styles(&mut styles, None);
    match &styles[0] {
        ExtractStyleValue::Static(s) => assert_eq!(s.style_order(), None),
        _ => panic!(),
    }
    apply_style_order_to_styles(&mut styles, Some(3));
    match (&styles[0], &styles[1], &styles[2]) {
        (ExtractStyleValue::Static(a), ExtractStyleValue::Static(b), ExtractStyleValue::Dynamic(c)) => {
            assert_eq!(a.style_order(), Some(3));
            assert_eq!(b.style_order(), Some(0));
            assert_eq!(c.style_order(), Some(3));
        },
        _ => panic!(),
    }
    assert_eq!(styles[3], ExtractStyleValue::Typography("h1".to_string()));
}

#[test]
fn test_optimize_color() {
    assert_eq!(optimize_color("ff0000"), "#F00");
    assert_eq!(optimize_color("123456"), "#123456");
    assert_eq!(optimize_color("ff0000ff"), "#F00");
    assert_eq!(optimize_color("f00"), "#F00");
    assert_eq!(optimize_color("f00f"), "#F00");
    assert_eq!(optimize_color("FF000080"), "#FF000080");
    assert_eq!(optimize_color("ffffffAA"), "#FFFA");
    assert_eq!(optimize_color("12345678"), "#12345678");
    assert_eq!(optimize_color("123456ff"), "#123456");
    assert_eq!(optimize_color("abc"), "#ABC");
}
