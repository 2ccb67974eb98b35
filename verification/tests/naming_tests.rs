use devup_css::class_map::{get_class_map, reset_class_map, set_class_map, ClassMap, FileClasses};
use devup_css::debug::set_debug;
use devup_css::naming::{keyframes_to_keyframes_name, sheet_to_classname, sheet_to_variable_name};
use devup_css::num_to_nm_base::num_to_nm_base;
use devup_css::optimize_value::{value_colors, value_finished, value_spacing, ValuePatterns};
use devup_css::property_type::{disassemble_property, PropertyType};
use devup_css::state::CssState;
use devup_css::style_selector::{merge_selector, AtRuleKind, StyleSelector};

#[test]
fn test_sheet_to_variable_name() {
    let mut st = CssState::new();
    reset_class_map(&mut st);
    set_debug(&mut st, false);
    assert_eq!(sheet_to_variable_name(&mut st, "background", 0, None), "--a");
    assert_eq!(sheet_to_variable_name(&mut st, "background", 0, Some("hover")), "--b");
    assert_eq!(sheet_to_variable_name(&mut st, "background", 1, None), "--c");
    assert_eq!(sheet_to_variable_name(&mut st, "background", 1, Some("hover")), "--d");
}

#[test]
fn test_debug_sheet_to_variable_name() {
    let mut st = CssState::new();
    set_debug(&mut st, true);
    assert_eq!(sheet_to_variable_name(&mut st, "background", 0, None), "--background-0-");
    assert_eq!(
        sheet_to_variable_name(&mut st, "background", 0, Some("hover")),
        "--background-0-12448419602614487988"
    );
    assert_eq!(sheet_to_variable_name(&mut st, "background", 1, None), "--background-1-");
    assert_eq!(
        sheet_to_variable_name(&mut st, "background", 1, Some("hover")),
        "--background-1-12448419602614487988"
    );
}

#[test]
fn test_debug_sheet_to_classname() {
    let mut st = CssState::new();
    set_debug(&mut st, true);
    assert_eq!(
        sheet_to_classname(&mut st, "background", 0, None, None, None, None),
        "background-0---255"
    );
    assert_eq!(
        sheet_to_classname(&mut st, "background", 0, Some("red"), Some("hover"), None, None),
        "background-0-red-12448419602614487988-255"
    );
    assert_eq!(
        sheet_to_classname(&mut st, "background", 1, None, None, None, None),
        "background-1---255"
    );
    assert_eq!(
        sheet_to_classname(&mut st, "background", 1, Some("red"), Some("hover"), None, None),
        "background-1-red-12448419602614487988-255"
    );
}

#[test]
fn class_names_count_up_and_repeat() {
    let mut st = CssState::new();
    assert_eq!(sheet_to_classname(&mut st, "background", 0, Some("red"), None, None, None), "a");
    assert_eq!(sheet_to_classname(&mut st, "background", 0, Some("red"), Some("hover"), None, None), "b");
    assert_eq!(sheet_to_classname(&mut st, "background", 1, None, None, None, None), "c");
    assert_eq!(sheet_to_classname(&mut st, "background", 1, None, Some("hover"), None, None), "d");
    assert_eq!(sheet_to_classname(&mut st, "background", 0, Some("red"), None, None, None), "a");
    assert_eq!(
        sheet_to_classname(&mut st, "  background  ", 0, Some("red"), Some(" hover "), None, None),
        "b"
    );
    let map = get_class_map(&st);
    assert_eq!(map.get("").unwrap().get("background-0-red--255"), Some(0));
}

#[test]
fn base_style_order_and_files() {
    let mut st = CssState::new();
    assert_eq!(sheet_to_classname(&mut st, "background", 0, None, None, None, None), "a");
    assert_eq!(sheet_to_classname(&mut st, "background", 0, None, None, Some(1), None), "b");
    assert_eq!(sheet_to_classname(&mut st, "color", 0, Some("red"), None, None, Some("x.tsx")), "a-a");
    assert_eq!(sheet_to_classname(&mut st, "color", 0, Some("red"), None, Some(0), Some("x.tsx")), "c");
    assert_eq!(sheet_to_classname(&mut st, "color", 0, Some("blue"), None, None, Some("y.tsx")), "b-a");
    let map = get_class_map(&st);
    assert_eq!(map.get("x.tsx").unwrap().get("color-0-red--255-0"), Some(0));
}

#[test]
fn debug_class_name_carries_order_and_file() {
    let mut st = CssState::new();
    set_debug(&mut st, true);
    assert_eq!(
        sheet_to_classname(&mut st, " color ", 2, Some("red"), Some("  "), Some(3), Some("f.tsx")),
        "color-2-red--3-0"
    );
}

#[test]
fn test_merge_selector() {
    assert_eq!(merge_selector("cls", Some(&StyleSelector::from_name("hover"))), ".cls:hover");
    assert_eq!(
        merge_selector("cls", Some(&StyleSelector::from_name("placeholder"))),
        ".cls::placeholder"
    );
    assert_eq!(
        merge_selector("cls", Some(&StyleSelector::from_name("theme-dark"))),
        ":root[data-theme=dark] .cls"
    );
    assert_eq!(
        merge_selector(
            "cls",
            Some(&StyleSelector::Selector(":root[data-theme=dark]:hover &".to_string())),
        ),
        ":root[data-theme=dark]:hover .cls"
    );
    assert_eq!(
        merge_selector(
            "cls",
            Some(&StyleSelector::Selector(":root[data-theme=dark]::placeholder &".to_string())),
        ),
        ":root[data-theme=dark]::placeholder .cls"
    );
    assert_eq!(
        merge_selector("cls", Some(&StyleSelector::from_pair(["theme-dark", "hover"]))),
        ":root[data-theme=dark] .cls:hover"
    );
    assert_eq!(
        merge_selector(
            "cls",
            Some(&StyleSelector::At {
                kind: AtRuleKind::Media,
                query: "print".to_string(),
                selector: None,
                outer: vec![],
                file: None,
            })
        ),
        ".cls"
    );
    assert_eq!(
        merge_selector(
            "cls",
            Some(&StyleSelector::At {
                kind: AtRuleKind::Media,
                query: "print".to_string(),
                selector: Some("&:hover".to_string()),
                outer: vec![],
                file: None,
            })
        ),
        ".cls:hover"
    );
    assert_eq!(
        merge_selector(
            "cls",
            Some(&StyleSelector::Global("&".to_string(), "file.ts".to_string()))
        ),
        "&"
    );
}

#[test]
fn merge_selector_without_selector_is_the_class() {
    assert_eq!(merge_selector("x", None), ".x");
}

#[test]
fn test_set_class_map() {
    let mut st = CssState::new();
    let mut map = ClassMap::new();
    let mut table = FileClasses::new();
    table.insert("background-0-rgba(255,0,0,0.5)-", 1);
    map.insert("", table);
    set_class_map(&mut st, map);
    assert_eq!(get_class_map(&st).len(), 1);
}

#[test]
fn test_keyframes_to_keyframes_name() {
    let mut st = CssState::new();
    reset_class_map(&mut st);
    set_debug(&mut st, false);
    assert_eq!(keyframes_to_keyframes_name(&mut st, "spin", None), num_to_nm_base(0));
    assert_eq!(keyframes_to_keyframes_name(&mut st, "spin", None), num_to_nm_base(0));
    assert_eq!(keyframes_to_keyframes_name(&mut st, "spin2", None), num_to_nm_base(1));
    reset_class_map(&mut st);
    set_debug(&mut st, true);
    assert_eq!(keyframes_to_keyframes_name(&mut st, "spin", None), "k-spin");
    assert_eq!(keyframes_to_keyframes_name(&mut st, "spin1", None), "k-spin1");
}

#[test]
fn keyframes_name_with_file() {
    let mut st = CssState::new();
    assert_eq!(keyframes_to_keyframes_name(&mut st, "spin", Some("a.tsx")), "a-a");
    assert_eq!(keyframes_to_keyframes_name(&mut st, "fade", Some("b.tsx")), "b-a");
    assert_eq!(keyframes_to_keyframes_name(&mut st, "fade", Some("a.tsx")), "a-b");
}

#[test]
fn test_convert_property() {
    assert_eq!(PropertyType::from_property("bg"), PropertyType::Single("background".to_string()));
    assert_eq!(PropertyType::from_property("bgColor"), PropertyType::Single("background-color".to_string()));
    assert_eq!(PropertyType::from_property("color"), PropertyType::Single("color".to_string()));
    assert_eq!(PropertyType::from_property("m"), PropertyType::Single("margin".to_string()));
    assert_eq!(PropertyType::from_property("mt"), PropertyType::Single("margin-top".to_string()));
    assert_eq!(PropertyType::from_property("mr"), PropertyType::Single("margin-right".to_string()));
    assert_eq!(PropertyType::from_property("mb"), PropertyType::Single("margin-bottom".to_string()));
    assert_eq!(PropertyType::from_property("ml"), PropertyType::Single("margin-left".to_string()));
    assert_eq!(PropertyType::from_property("p"), PropertyType::Single("padding".to_string()));
    assert_eq!(PropertyType::from_property("pt"), PropertyType::Single("padding-top".to_string()));
    assert_eq!(PropertyType::from_property("pr"), PropertyType::Single("padding-right".to_string()));
    assert_eq!(PropertyType::from_property("pb"), PropertyType::Single("padding-bottom".to_string()));
    assert_eq!(PropertyType::from_property("pl"), PropertyType::Single("padding-left".to_string()));
    assert_eq!(PropertyType::from_property("w"), PropertyType::Single("width".to_string()));
    assert_eq!(PropertyType::from_property("h"), PropertyType::Single("height".to_string()));
    assert_eq!(PropertyType::from_property("minW"), PropertyType::Single("min-width".to_string()));
    assert_eq!(PropertyType::from_property("minH"), PropertyType::Single("min-height".to_string()));
    assert_eq!(PropertyType::from_property("maxW"), PropertyType::Single("max-width".to_string()));
    assert_eq!(PropertyType::from_property("maxH"), PropertyType::Single("max-height".to_string()));
    assert_eq!(
        PropertyType::from_property("mx"),
        PropertyType::Multi(vec!["margin-left".to_string(), "margin-right".to_string()])
    );
    assert_eq!(
        PropertyType::from_property("my"),
        PropertyType::Multi(vec!["margin-top".to_string(), "margin-bottom".to_string()])
    );
    assert_eq!(
        PropertyType::from_property("px"),
        PropertyType::Multi(vec!["padding-left".to_string(), "padding-right".to_string()])
    );
    assert_eq!(
        PropertyType::from_property("py"),
        PropertyType::Multi(vec!["padding-top".to_string(), "padding-bottom".to_string()])
    );
}

#[test]
fn test_convert_vendor_property() {
    assert_eq!(
        PropertyType::from_property("MozUserSelect"),
        PropertyType::Single("-moz-user-select".to_string())
    );
    assert_eq!(
        PropertyType::from_property("msAccelerator"),
        PropertyType::Single("-ms-accelerator".to_string())
    );
    assert_eq!(
        PropertyType::from_property("WebkitAlignContent"),
        PropertyType::Single("-webkit-align-content".to_string())
    );
}

#[test]
fn test_property_type_from() {
    assert_eq!(PropertyType::from_property("background"), PropertyType::Single("background".to_string()));
    assert_eq!(PropertyType::from_property("background-color"), PropertyType::Single("background-color".to_string()));
    assert_eq!(PropertyType::from_property("color"), PropertyType::Single("color".to_string()));
    assert_eq!(PropertyType::from_property("margin"), PropertyType::Single("margin".to_string()));
    assert_eq!(PropertyType::from_property("margin-top"), PropertyType::Single("margin-top".to_string()));
    assert_eq!(PropertyType::from_property("margin-right"), PropertyType::Single("margin-right".to_string()));
    assert_eq!(PropertyType::from_property("margin-bottom"), PropertyType::Single("margin-bottom".to_string()));
    assert_eq!(PropertyType::from_property("margin-left"), PropertyType::Single("margin-left".to_string()));
    assert_eq!(PropertyType::from_property("padding"), PropertyType::Single("padding".to_string()));
    assert_eq!(PropertyType::from_property("padding-top"), PropertyType::Single("padding-top".to_string()));
    assert_eq!(PropertyType::from_property("padding-right"), PropertyType::Single("padding-right".to_string()));
    assert_eq!(PropertyType::from_property("padding-bottom"), PropertyType::Single("padding-bottom".to_string()));
    assert_eq!(PropertyType::from_property("padding-left"), PropertyType::Single("padding-left".to_string()));
    assert_eq!(PropertyType::from_property("width"), PropertyType::Single("width".to_string()));
    assert_eq!(PropertyType::from_property("height"), PropertyType::Single("height".to_string()));
    assert_eq!(PropertyType::from_property("min-width"), PropertyType::Single("min-width".to_string()));
    assert_eq!(PropertyType::from_property("min-height"), PropertyType::Single("min-height".to_string()));
    assert_eq!(PropertyType::from_property("max-width"), PropertyType::Single("max-width".to_string()));
    assert_eq!(PropertyType::from_property("max-height"), PropertyType::Single("max-height".to_string()));
    assert_eq!(
        PropertyType::from_pair(["margin-left", "margin-right"]),
        PropertyType::Multi(vec!["margin-left".to_string(), "margin-right".to_string()])
    );
    assert_eq!(
        PropertyType::from_pair(["margin-top", "margin-bottom"]),
        PropertyType::Multi(vec!["margin-top".to_string(), "margin-bottom".to_string()])
    );
}

#[test]
fn disassemble_shorthands_and_plain_names() {
    assert_eq!(disassemble_property("bg"), vec!["background".to_string()]);
    assert_eq!(
        disassemble_property("boxSize"),
        vec!["width".to_string(), "height".to_string()]
    );
    assert_eq!(disassemble_property("backgroundColor"), vec!["background-color".to_string()]);
    assert_eq!(disassemble_property("WebkitLineClamp"), vec!["-webkit-line-clamp".to_string()]);
    assert_eq!(disassemble_property("Webkit"), vec!["webkit".to_string()]);
    assert_eq!(disassemble_property("msx"), vec!["msx".to_string()]);
}

// The value normalization that runs before naming a style: the library's
// stages with the `rgba()` alpha step (floating point) in between. None of
// the values below holds a math function, so the `0%` step does not apply.
fn normalized(value: &str) -> String {
    let p = ValuePatterns::new().expect("patterns compile");
    let spaced = value_spacing(&p, value);
    let with_rgba = if spaced.contains("rgba(") {
        let re = regex_lite::Regex::new(r"rgba\((\d+),(\d+),(\d+),(\d*\.?\d*)\)").unwrap();
        re.replace_all(&spaced, |c: &regex_lite::Captures| {
            match (c[1].parse::<i32>(), c[2].parse::<i32>(), c[3].parse::<i32>(), c[4].parse::<f32>()) {
                (Ok(r), Ok(g), Ok(b), Ok(a)) => {
                    format!("#{:02X}{:02X}{:02X}{:02X}", r, g, b, (a * 255.0).round() as i32)
                }
                _ => c[0].to_string(),
            }
        })
        .into_owned()
    } else {
        spaced
    };
    let (colored, _) = value_colors(&p, &with_rgba);
    value_finished(&colored)
}

fn classname(
    st: &mut CssState,
    property: &str,
    level: u8,
    value: Option<&str>,
    selector: Option<&str>,
    style_order: Option<u8>,
) -> String {
    let v = normalized(value.unwrap_or_default());
    sheet_to_classname(st, property, level, Some(&v), selector, style_order, None)
}

#[test]
fn test_sheet_to_classname() {
    let mut st = CssState::new();
    set_debug(&mut st, false);
    reset_class_map(&mut st);
    assert_eq!(classname(&mut st, "background", 0, Some("red"), None, None), "a");
    assert_eq!(classname(&mut st, "background", 0, Some("red"), Some("hover"), None), "b");
    assert_eq!(classname(&mut st, "background", 1, None, None, None), "c");
    assert_eq!(classname(&mut st, "background", 1, None, Some("hover"), None), "d");

    reset_class_map(&mut st);
    let x = classname(&mut st, "background", 0, None, None, None);
    assert_eq!(x, classname(&mut st, "background", 0, None, None, None));
    let x = classname(&mut st, "background", 0, Some("red"), None, None);
    assert_eq!(x, classname(&mut st, "background", 0, Some("red"), None, None));
    let x = classname(&mut st, "background", 0, Some("red"), None, None);
    assert_eq!(x, classname(&mut st, "  background  ", 0, Some("  red  "), None, None));
    let x = classname(&mut st, "background", 0, Some("red"), None, None);
    assert_eq!(x, classname(&mut st, "  background  ", 0, Some("red;"), None, None));
    let x = classname(&mut st, "background", 0, Some("rgba(255, 0, 0,    0.5)"), None, None);
    assert_eq!(x, classname(&mut st, "background", 0, Some("rgba(255,0,0,0.5)"), None, None));
    let x = classname(&mut st, "background", 0, Some("rgba(255, 0, 0,    0.5)"), None, None);
    assert_eq!(x, classname(&mut st, "background", 0, Some("rgba(255,0,0,.5)"), None, None));
    let x = classname(&mut st, "background", 0, Some("rgba(255, 0, 0,    0.5)"), None, None);
    assert_eq!(x, classname(&mut st, "background", 0, Some("#FF000080"), None, None));
    assert_eq!(get_class_map(&st).get("").unwrap().get("background-0-#FF000080--255"), Some(2));
    let x = classname(&mut st, "background", 0, Some("#fff"), None, None);
    assert_eq!(x, classname(&mut st, "  background  ", 0, Some("#FFF"), None, None));
    let x = classname(&mut st, "background", 0, Some("#ffffff"), None, None);
    assert_eq!(x, classname(&mut st, "background", 0, Some("#FFF"), None, None));
    assert_eq!(get_class_map(&st).get("").unwrap().get("background-0-#FFF--255"), Some(3));
    let x = classname(&mut st, "background", 0, Some("#ffffff"), None, None);
    assert_eq!(x, classname(&mut st, "background", 0, Some("#FFFFFF"), None, None));
    let x = classname(&mut st, "background", 0, Some("#ffffffAA"), None, None);
    assert_eq!(x, classname(&mut st, "background", 0, Some("#FFFFFFaa"), None, None));
    assert_eq!(get_class_map(&st).get("").unwrap().get("background-0-#FFFA--255"), Some(4));
    let x = classname(&mut st, "background", 0, Some("color-mix(in srgb,var(--primary) 80%,    #000 20%)"), None, None);
    assert_eq!(
        x,
        classname(&mut st, "background", 0, Some("color-mix(in srgb,    var(--primary) 80%, #000000 20%)"), None, None)
    );

    reset_class_map(&mut st);
    assert_eq!(classname(&mut st, "background", 0, None, None, None), "a");
    assert_eq!(classname(&mut st, "background", 0, None, None, Some(1)), "b");

    reset_class_map(&mut st);
    for v in ["0px", "0em", "0rem", "0vh", "0%", "0dvh", "0dvw", "0vw", "0"] {
        assert_eq!(classname(&mut st, "width", 0, Some(v), None, None), "a");
    }
    for v in [
        "solid 0px red",
        "solid 0% red",
        "solid 0em red",
        "solid 0rem red",
        "solid 0vh red",
        "solid 0vw red",
        "solid 0dvh red",
        "solid 0dvw red",
    ] {
        assert_eq!(classname(&mut st, "border", 0, Some(v), None, None), "b");
    }
    for v in ["0px 0", "0em 0", "0rem 0", "0vh 0", "0vw 0", "0dvh 0", "0 0vh", "0 0vw"] {
        assert_eq!(classname(&mut st, "test", 0, Some(v), None, None), "c");
    }

    reset_class_map(&mut st);
    assert_eq!(classname(&mut st, "transition", 0, Some("all 0.3s ease-in-out"), None, None), "a");
    assert_eq!(classname(&mut st, "transition", 0, Some("all .3s ease-in-out"), None, None), "a");
}
