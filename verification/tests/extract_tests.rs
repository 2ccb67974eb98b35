use devup_css::component::ExportVariableKind;
use devup_css::css_type::CssType;
use devup_css::extract_style::{
    strip_important, ExtractDynamicStyle, ExtractStaticStyle, ExtractStyleProperty,
    ExtractStyleValue, StyleProperty, ThemeTokenResolution,
};
use devup_css::ratio::{gcd_u32, reduce_ratio};
use devup_css::state::CssState;

fn base(property: &str, value: &str) -> ExtractStyleValue {
    ExtractStyleValue::Static(ExtractStaticStyle {
        value: value.to_string(),
        property: property.to_string(),
        level: 0,
        selector: None,
        style_order: None,
        layer: None,
        theme_token_resolution: ThemeTokenResolution::CssVariable,
    })
}

#[test]
fn test_kind_from_export_variable() {
    assert_eq!(ExportVariableKind::try_from("Box".to_string()), Ok(ExportVariableKind::Box));
    assert_eq!(ExportVariableKind::try_from("Text".to_string()), Ok(ExportVariableKind::Text));
    assert_eq!(ExportVariableKind::try_from("Image".to_string()), Ok(ExportVariableKind::Image));
    assert_eq!(ExportVariableKind::try_from("Button".to_string()), Ok(ExportVariableKind::Button));
    assert_eq!(ExportVariableKind::try_from("Input".to_string()), Ok(ExportVariableKind::Input));
    assert_eq!(ExportVariableKind::try_from("Flex".to_string()), Ok(ExportVariableKind::Flex));
    assert_eq!(ExportVariableKind::try_from("VStack".to_string()), Ok(ExportVariableKind::VStack));
    assert_eq!(ExportVariableKind::try_from("Center".to_string()), Ok(ExportVariableKind::Center));
    assert!(ExportVariableKind::try_from("css".to_string()).is_err());
    assert!(ExportVariableKind::try_from("foo".to_string()).is_err());
}

#[test]
fn test_to_tag() {
    assert_eq!(ExportVariableKind::Box.to_tag(), Ok("div"));
    assert_eq!(ExportVariableKind::Text.to_tag(), Ok("span"));
    assert_eq!(ExportVariableKind::Image.to_tag(), Ok("img"));
    assert_eq!(ExportVariableKind::Button.to_tag(), Ok("button"));
    assert_eq!(ExportVariableKind::Input.to_tag(), Ok("input"));
    assert_eq!(ExportVariableKind::Flex.to_tag(), Ok("div"));
    assert_eq!(ExportVariableKind::VStack.to_tag(), Ok("div"));
    assert_eq!(ExportVariableKind::Center.to_tag(), Ok("div"));
}

#[test]
fn test_extract_style_from_kind() {
    assert_eq!(ExportVariableKind::Box.extract(), vec![]);
    assert_eq!(ExportVariableKind::Text.extract(), vec![]);
    assert_eq!(ExportVariableKind::Image.extract(), vec![]);
    assert_eq!(ExportVariableKind::Button.extract(), vec![]);
    assert_eq!(ExportVariableKind::Input.extract(), vec![]);
    assert_eq!(ExportVariableKind::Flex.extract(), vec![base("display", "flex")]);
    assert_eq!(
        ExportVariableKind::VStack.extract(),
        vec![base("display", "flex"), base("flexDirection", "column")]
    );
    assert_eq!(
        ExportVariableKind::Center.extract(),
        vec![
            base("display", "flex"),
            base("justifyContent", "center"),
            base("alignItems", "center")
        ]
    );
}

#[test]
fn css_type_from_name() {
    assert!(matches!(CssType::try_from("css".to_string()), Ok(CssType::Css)));
    assert!(matches!(CssType::try_from("globalCss".to_string()), Ok(CssType::GlobalCss)));
    assert_eq!(CssType::try_from("other".to_string()).err(), Some("other".to_string()));
}

#[test]
fn test_extract_dynamic_style() {
    let style = ExtractDynamicStyle::new("color", 0, "primary", None);
    assert_eq!(style.property(), "color");
    assert_eq!(style.level(), 0);
    assert_eq!(style.selector(), None);
    assert_eq!(style.identifier(), "primary");
    assert_eq!(style.style_order(), None);
    assert!(!style.important());
}

#[test]
fn test_strip_important_plain() {
    let (id, important) = strip_important("color");
    assert_eq!(id, "color");
    assert!(!important);
}

#[test]
fn test_strip_important_template_literal() {
    let (id, important) = strip_important("`${color} !important`");
    assert_eq!(id, "`${color}`");
    assert!(important);
}

#[test]
fn test_strip_important_double_quote() {
    let (id, important) = strip_important("\"red !important\"");
    assert_eq!(id, "\"red\"");
    assert!(important);
}

#[test]
fn test_strip_important_single_quote() {
    let (id, important) = strip_important("'red !important'");
    assert_eq!(id, "'red'");
    assert!(important);
}

#[test]
fn test_strip_important_bare() {
    let (id, important) = strip_important("something !important");
    assert_eq!(id, "something");
    assert!(important);
}

#[test]
fn test_dynamic_style_with_important() {
    let style = ExtractDynamicStyle::new("background", 0, "`${color} !important`", None);
    assert_eq!(style.property(), "background");
    assert_eq!(style.identifier(), "`${color}`");
    assert!(style.important());
}

#[test]
fn test_extract_static_style() {
    let style = ExtractStaticStyle::new("color", "red", 0, None);
    assert_eq!(style.property(), "color");
    assert_eq!(style.value(), "red");
    assert_eq!(style.level(), 0);
    assert_eq!(style.selector(), None);
    assert_eq!(style.style_order(), None);
    assert_eq!(style.layer(), None);
}

#[test]
fn test_extract_static_style_with_layer() {
    let style = ExtractStaticStyle::new_with_layer("margin", "0", 0, None, Some("reset".to_string()));
    assert_eq!(style.property(), "margin");
    assert_eq!(style.value(), "0");
    assert_eq!(style.level(), 0);
    assert_eq!(style.selector(), None);
    assert_eq!(style.layer(), Some("reset"));
}

#[test]
fn test_extract_static_style_with_layer_none() {
    let style = ExtractStaticStyle::new_with_layer("color", "red", 0, None, None);
    assert_eq!(style.property(), "color");
    assert_eq!(style.value(), "red");
    assert_eq!(style.layer(), None);
}

#[test]
fn static_style_basic_and_resolution() {
    let style = ExtractStaticStyle::new_basic("color", "red", 1, None)
        .with_theme_token_resolution(ThemeTokenResolution::FirstValue);
    assert_eq!(style.style_order(), Some(0));
    assert_eq!(style.level(), 1);
    assert_eq!(style.theme_token_resolution(), ThemeTokenResolution::FirstValue);
}

#[test]
fn test_style_order() {
    let mut style = ExtractStyleValue::Static(ExtractStaticStyle::new("margin", "10px", 0, None));
    style.set_style_order(1);
    if let ExtractStyleValue::Static(style) = style {
        assert_eq!(style.style_order(), Some(1));
    }
    let mut style = ExtractStyleValue::Dynamic(ExtractDynamicStyle::new("margin", 0, "10px", None));
    style.set_style_order(1);
    if let ExtractStyleValue::Dynamic(style) = style {
        assert_eq!(style.style_order(), Some(1));
    }
}

#[test]
fn static_style_keeps_its_order() {
    let mut style = ExtractStyleValue::Static(ExtractStaticStyle::new_basic("margin", "0", 0, None));
    style.set_style_order(4);
    if let ExtractStyleValue::Static(style) = style {
        assert_eq!(style.style_order(), Some(0));
    }
}

#[test]
fn test_to_string_class_name() {
    let prop = StyleProperty::ClassName("my-class".to_string());
    assert_eq!(prop.to_string(), "my-class".to_string());
}

#[test]
fn test_to_string_variable() {
    let prop = StyleProperty::Variable {
        class_name: "cls".to_string(),
        variable_name: "--var-name".to_string(),
        identifier: "id".to_string(),
    };
    assert_eq!(prop.to_string(), "var(--var-name)".to_string());
}

#[test]
fn extracting_styles_names_them() {
    let mut st = CssState::new();
    let s = ExtractStaticStyle::new("color", "red", 0, None);
    assert_eq!(s.extract(&mut st, None), StyleProperty::ClassName("a".to_string()));
    let d = ExtractDynamicStyle::new("color", 0, "primary", None);
    assert_eq!(
        d.extract(&mut st, None),
        StyleProperty::Variable {
            class_name: "b".to_string(),
            variable_name: "--c".to_string(),
            identifier: "primary".to_string(),
        }
    );
    let t = ExtractStyleValue::Typography("h1".to_string());
    assert_eq!(t.extract(&mut st, None), Some(StyleProperty::ClassName("typo-h1".to_string())));
}

#[test]
fn multi_value_properties_are_optimized_before_naming() {
    let mut st = CssState::new();
    let a = ExtractStaticStyle::new("font-family", "'Roboto', sans-serif", 0, None);
    let b = ExtractStaticStyle::new("font-family", "Roboto,sans-serif", 0, None);
    assert_eq!(a.extract(&mut st, None), b.extract(&mut st, None));
}

#[test]
fn static_style_reduces_aspect_ratio() {
    let style = ExtractStaticStyle::new("aspectRatio", "16/10", 0, None);
    assert_eq!(style.value(), "8/5");
    let style = ExtractStaticStyle::new("aspectRatio", " 16 / 10 ", 0, None);
    assert_eq!(style.value(), "8/5");
    let style = ExtractStaticStyle::new_with_layer("aspectRatio", "1920/1080", 0, None, None);
    assert_eq!(style.value(), "16/9");
    let style = ExtractStaticStyle::new("aspectRatio", "0/5", 0, None);
    assert_eq!(style.value(), "0/1");
}

#[test]
fn static_style_keeps_other_ratios() {
    assert_eq!(ExtractStaticStyle::new("aspectRatio", "auto", 0, None).value(), "auto");
    assert_eq!(ExtractStaticStyle::new("aspectRatio", "0/0", 0, None).value(), "0/0");
    assert_eq!(ExtractStaticStyle::new("aspectRatio", "16/10/2", 0, None).value(), "16/10/2");
    assert_eq!(ExtractStaticStyle::new("aspectRatio", "1.5/1", 0, None).value(), "1.5/1");
    assert_eq!(ExtractStaticStyle::new("width", "16/10", 0, None).value(), "16/10");
    assert_eq!(ExtractStaticStyle::new_basic("aspectRatio", "16/10", 0, None).value(), "16/10");
}

#[test]
fn ratio_in_lowest_terms() {
    assert_eq!(reduce_ratio("+4/6"), "2/3");
    assert_eq!(reduce_ratio("4294967295/4294967295"), "1/1");
    assert_eq!(reduce_ratio("4294967296/2"), "4294967296/2");
    assert_eq!(reduce_ratio("7/3"), "7/3");
    assert_eq!(gcd_u32(12, 18), 6);
    assert_eq!(gcd_u32(0, 9), 9);
}

#[test]
fn kebab_aspect_ratio_is_reduced_too() {
    assert_eq!(ExtractStaticStyle::new("aspect-ratio", "16/10", 0, None).value(), "8/5");
}
