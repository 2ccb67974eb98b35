use devup_css::zero_percent::zero_percent;
use devup_css::regex_match::{regex_new, replace_with_template, TemplatePart};
use devup_css::optimize_value::{value_colors, value_finished, value_spacing, ValuePatterns};

/// Every stage of value normalization but the `rgba()` and `0%` steps
/// (the cases below hold neither an `rgba()` nor a math function with a
/// bare top-level zero).
fn normalized(value: &str) -> String {
    let p = ValuePatterns::new().expect("patterns compile");
    let spaced = value_spacing(&p, value);
    let (colored, _) = value_colors(&p, &spaced);
    value_finished(&colored)
}

#[test]
fn test_optimize_value() {
    let cases = [
        ("0px", "0"),
        ("0.12px", ".12px"),
        ("-0.12px", "-.12px"),
        ("0.0px", "0"),
        ("0.0em", "0"),
        ("0.0rem", "0"),
        ("0.0vh", "0"),
        ("0.0vw", "0"),
        ("0.0%", "0"),
        ("0.0dvh", "0"),
        ("0.0dvw", "0"),
        ("1.3s", "1.3s"),
        ("0.3s", ".3s"),
        ("0.3s ease-in-out", ".3s ease-in-out"),
        ("0em", "0"),
        ("0rem", "0"),
        ("0vh", "0"),
        ("0vw", "0"),
        ("0%", "0"),
        ("0dvh", "0"),
        ("0dvw", "0"),
        ("0px 0px", "0 0"),
        ("-0px -0px", "0 0"),
        ("0.0px   -0px", "0 0"),
        ("0em 0em", "0 0"),
        ("0rem 0rem", "0 0"),
        ("0vh 0vh", "0 0"),
        ("0vw 0vw", "0 0"),
        ("-0vw -0vw", "0 0"),
        ("-0.2em", "-.2em"),
        ("-0.02em", "-.02em"),
        ("scale(0px)", "scale(0)"),
        ("scale(-0px)", "scale(0)"),
        ("scale(-0px);", "scale(0)"),
        ("rgb(255,12,12)", "#FF0C0C"),
        ("rgb(255, 0, 0)", "#F00"),
        ("rgb(255, 255, 255)", "#FFF"),
        ("red;", "red"),
        ("translate(0px)", "translate(0)"),
        ("translate(-0px,0px)", "translate(0,0)"),
        ("translate(-0px, 0px)", "translate(0,0)"),
        ("translate(0px, 0px)", "translate(0,0)"),
        ("translate(10px, 0px)", "translate(10px,0)"),
        ("translate(     10px  , 0px   )", "translate(10px,0)"),
        ("translate(     0px  , 0px   )", "translate(0,0)"),
        ("         translate(     0px  , 0px   )         ", "translate(0,0)"),
        ("\"red\"", "\"red\""),
        ("'red'", "'red'"),
        ("`red`", "`red`"),
        ("\"red;\"", "\"red\""),
        ("'red;'", "'red'"),
        ("`red;`", "`red`"),
        ("`red;`;", "`red`"),
        ("\"red;\";", "\"red\""),
        ("'red;';", "'red'"),
        ("`${color};`;", "`${color}`"),
        ("(\"red;\")", "(\"red\")"),
        ("(`red;`)", "(`red`)"),
        ("('red;')", "('red')"),
        ("('red') + 'blue;'", "('red') + 'blue'"),
        ("translateX(0px) translateY(0px)", "translateX(0) translateY(0)"),
        ("max(10px, any(0", "max(10px,any(0))"),
        ("scale(0deg, 0deg)", "scale(0,0)"),
        ("scaleX(0deg) scaleY(0deg) scaleZ(0deg)", "scaleX(0) scaleY(0) scaleZ(0)"),
        ("translate(0px) scale(0deg)", "translate(0) scale(0)"),
        ("translate(-0px) scale(-0deg)", "translate(0) scale(0)"),
        ("translate(-10px) scale(-10deg)", "translate(-10px) scale(-10deg)"),
        ("rgb(2147483648,0,0)", "rgb(2147483648,0,0)"),
        ("10px, any(0))", "(10px,any(0))"),
    ];
    for (input, expected) in cases {
        assert_eq!(normalized(input), expected, "{input}");
    }
}

#[test]
fn test_optimize_color_values() {
    for (input, expected) in [
        ("#ff0000", "#F00"),
        ("#123456", "#123456"),
        ("#ff0000ff", "#F00"),
        ("#f00", "#F00"),
        ("#f00f", "#F00"),
        ("red", "red"),
        ("blue", "blue"),
        ("transparent", "transparent"),
    ] {
        assert_eq!(normalized(input), expected, "{input}");
    }
}

#[test]
fn test_css_custom_property_wrapping() {
    for (input, expected) in [
        ("--var-0", "var(--var-0)"),
        ("--my-custom-prop", "var(--my-custom-prop)"),
        ("--primary-color", "var(--primary-color)"),
        ("var(--var-0)", "var(--var-0)"),
        ("--a --b", "--a --b"),
        ("--a, --b", "--a,--b"),
    ] {
        assert_eq!(normalized(input), expected, "{input}");
    }
}

#[test]
fn stages_report_a_zero_and_leave_plain_values() {
    let p = ValuePatterns::new().unwrap();
    assert_eq!(value_spacing(&p, "  red  "), "red");
    assert_eq!(value_colors(&p, "red"), ("red".to_string(), false));
    assert_eq!(value_colors(&p, "calc(0)"), ("calc(0)".to_string(), true));
    assert_eq!(value_finished("a)"), "(a)");
    assert_eq!(value_finished("((a"), "((a))");
    assert_eq!(value_finished("a"), "a");
}

#[test]
fn compiled_patterns_replace_every_match() {
    let p = regex_new("a+").expect("compiles");
    let parts = vec![TemplatePart::Text("-".to_string())];
    assert_eq!(replace_with_template(&p, "caaatab", &parts), "c-t-b");
    let p = regex_new("(\\d)x").expect("compiles");
    let parts = vec![TemplatePart::Text("[".to_string()), TemplatePart::Group(1), TemplatePart::Text("]".to_string())];
    assert_eq!(replace_with_template(&p, "1x 2y 3x", &parts), "[1] 2y [3]");
    assert!(regex_new("(").is_none());
}

#[test]
fn bare_zeros_in_math_functions_become_percent() {
    assert_eq!(zero_percent("calc(0 + 10px)"), Some("calc(0% + 10px)".to_string()));
    assert_eq!(zero_percent("min(10px, 0)"), Some("min(10px, 0%)".to_string()));
    assert_eq!(zero_percent("max(0, calc(0))"), Some("max(0%, calc(0%))".to_string()));
    assert_eq!(zero_percent("CALC(0 + 1px)"), Some("CALC(0% + 1px)".to_string()));
    // only digits next to the `0` keep it (the colors stage has already
    // turned `0.5` into `.5` by the time this step runs)
    assert_eq!(zero_percent("calc(10 + 0.5px)"), Some("calc(10 + 0%.5px)".to_string()));
    assert_eq!(zero_percent("calc(10 + 20px)"), Some("calc(10 + 20px)".to_string()));
    assert_eq!(zero_percent("translate(0, 0)"), Some("translate(0, 0)".to_string()));
}

#[test]
fn zero_positions_follow_the_lowercase_bytes() {
    // `İ` lowercases to two characters, one byte longer: the offset found in
    // the lowercase lands on the `)` of the value.
    assert_eq!(zero_percent("calc(İ 0)"), Some("calc(İ 00%".to_string()));
    // `ẞ` lowercases to `ß`, one byte shorter: the offset falls inside `ẞ`.
    assert_eq!(zero_percent("calc(ẞ0)"), None);
}
