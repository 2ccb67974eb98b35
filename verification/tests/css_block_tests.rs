use devup_css::css_utils::{optimize_css_block, rm_last_semi_colon};

#[test]
fn compacts_css_blocks() {
    let cases = [
        ("div{\n        /* comment */\n        background-color: red;\n        /* color: blue; */\n    }", "div{background-color:red}"),
        ("/*div{\n        background-color: red;\n    }*/", ""),
        ("       img      {       background-color    :       red;      }     ", "img{background-color:red}"),
        (
            "       img      {       background-color    :       red;          color     :          blue;      }     ",
            "img{background-color:red;color:blue}",
        ),
        ("div{margin : 0 ; padding : 0 ; }", "div{margin:0;padding:0}"),
        ("a { text-decoration : none ; color : black ; }", "a{text-decoration:none;color:black}"),
        ("body{background: #fff;}", "body{background:#fff}"),
        ("h1{ font-size : 2rem ; font-weight : bold ; }", "h1{font-size:2rem;font-weight:bold}"),
        ("span { }", "span{}"),
        ("p{color:blue;}", "p{color:blue}"),
        ("ul { list-style : none ; margin : 0 ; padding : 0 ; }", "ul{list-style:none;margin:0;padding:0}"),
        ("ul { font-family: 'Roboto',       sans-serif; }", "ul{font-family:Roboto,sans-serif}"),
        ("ul { font-family: \"Roboto Hello\",       sans-serif; }", "ul{font-family:\"Roboto Hello\",sans-serif}"),
        ("section{  }", "section{}"),
        (":root{   }", ":root{}"),
        (":root{ background: red; }", ":root{background:red}"),
        (":root, :section{ background: red; }", ":root,:section{background:red}"),
        ("@supports (display: grid) { .grid { gap : 1rem ; } }", "@supports (display: grid){.grid{gap:1rem}}"),
        ("*:hover{ background: red; }", "*:hover{background:red}"),
        (":root {color-scheme: light dark }", ":root{color-scheme:light dark}"),
        ("a{color:red;;}", "a{color:red}"),
        ("", ""),
    ];
    for (input, expected) in cases {
        assert_eq!(optimize_css_block(input), expected, "{input}");
    }
}

#[test]
fn drops_trailing_semicolons() {
    assert_eq!(rm_last_semi_colon("a;;"), "a");
    assert_eq!(rm_last_semi_colon("a;b"), "a;b");
    assert_eq!(rm_last_semi_colon(";"), "");
}
