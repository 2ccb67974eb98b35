use devup_css::optimize_multi_css_value::{check_multi_css_optimize, optimize_multi_css_value, wrap_url};
use devup_css::rm_css_comment::rm_css_comment;

#[test]
fn removes_css_comments() {
    let cases = [
        ("/* comment */", ""),
        ("/* comment */ div", "div"),
        ("div /* comment */", "div"),
        ("div /* comment */ div", "div div"),
        ("div /* comment */ div /* comment */", "div div"),
        ("div /* comment */ div /* comment */ div", "div div div"),
        ("div /* comment */ div /* comment */ div /* comment */", "div div div"),
        ("div /* comment\n         */ div /* comment */ div /* comment */", "div div div"),
        ("div /* comment */ div /* comment */ div /* comment */ div", "div div div div"),
        ("a /* open", "a /* open"),
    ];
    for (input, expected) in cases {
        assert_eq!(rm_css_comment(input), expected, "{input}");
    }
}

#[test]
fn optimizes_multi_values() {
    let cases = [
        ("Roboto, sans-serif", "Roboto,sans-serif"),
        ("'Roboto', sans-serif", "Roboto,sans-serif"),
        ("\"Roboto\", sans-serif", "Roboto,sans-serif"),
        ("'Roboto Hello', sans-serif", "\"Roboto Hello\",sans-serif"),
        ("\"Roboto Hello\", sans-serif", "\"Roboto Hello\",sans-serif"),
        ("Roboto", "Roboto"),
        ("'Roboto'", "Roboto"),
        ("\"Roboto\"", "Roboto"),
        ("url('/fonts/Roboto-Regular.ttf')", "url('/fonts/Roboto-Regular.ttf')"),
        ("url(\"/fonts/Roboto-Regular.ttf\")", "url(\"/fonts/Roboto-Regular.ttf\")"),
        ("'A B', 'C D', E", "\"A B\",\"C D\",E"),
        ("A,B,C", "A,B,C"),
        ("A, B, C", "A,B,C"),
        ("'", "'"),
        ("\"", "\""),
        ("url(abc)", "url(abc)"),
        ("url(\"a bc\")", "url(\"a bc\")"),
        ("'A', 'B', 'C'", "A,B,C"),
        ("\"A\", \"B\", \"C\"", "A,B,C"),
    ];
    for (input, expected) in cases {
        assert_eq!(optimize_multi_css_value(input), expected, "{input}");
    }
}

#[test]
fn checks_multi_value_properties() {
    let cases = [
        ("font-family", true),
        ("src", true),
        ("content", true),
        ("animation-name", true),
        ("background", false),
        ("color", false),
        ("margin", false),
    ];
    for (property, expected) in cases {
        assert_eq!(check_multi_css_optimize(property), expected, "{property}");
    }
}

#[test]
fn wraps_urls() {
    let cases = [
        ("url('/fonts/Roboto-Regular.ttf')", "url('/fonts/Roboto-Regular.ttf')"),
        ("url(\"/fonts/Roboto-Regular.ttf\")", "url(\"/fonts/Roboto-Regular.ttf\")"),
        ("//fonts/Roboto-Regular.ttf", "url(//fonts/Roboto-Regular.ttf)"),
        ("fonts/Roboto-Regular.ttf", "url(fonts/Roboto-Regular.ttf)"),
        ("local('fonts/Roboto Regular.ttf')", "local('fonts/Roboto Regular.ttf')"),
        ("(hello)", "url(\"(hello)\")"),
        ("(hello world)", "url(\"(hello world)\")"),
    ];
    for (input, expected) in cases {
        assert_eq!(wrap_url(&optimize_multi_css_value(input)), expected, "{input}");
    }
}

#[test]
fn a_line_break_ends_a_function_call() {
    assert_eq!(wrap_url("f(a\n)"), "url(f(a\n))");
}
