use devup_css::class_expr::{convert_class_name, merge_expression_for_class_name, Expr};

fn s(v: &str) -> Expr {
    Expr::Str(v.to_string())
}

fn id(v: &str) -> Expr {
    Expr::Ident(v.to_string())
}

fn shown(e: Option<Expr>) -> String {
    format!("{e:?}")
}

#[test]
fn string_class_names_are_joined() {
    assert_eq!(shown(merge_expression_for_class_name(vec![s("a"), s(" b "), s("")])), shown(Some(s("a b"))));
    assert_eq!(shown(merge_expression_for_class_name(vec![])), "None");
    assert_eq!(shown(merge_expression_for_class_name(vec![s("  ")])), "None");
}

#[test]
fn a_lone_expression_is_kept() {
    assert_eq!(shown(merge_expression_for_class_name(vec![id("x")])), shown(Some(id("x"))));
    assert_eq!(shown(merge_expression_for_class_name(vec![s(" "), id("x")])), shown(Some(id("x"))));
}

#[test]
fn expressions_go_into_a_template() {
    let t = |q: &[&str], es: Vec<Expr>| Some(Expr::Template(q.iter().map(|x| x.to_string()).collect(), es));
    assert_eq!(
        shown(merge_expression_for_class_name(vec![s("a"), id("x")])),
        shown(t(&["a ", ""], vec![id("x")]))
    );
    assert_eq!(
        shown(merge_expression_for_class_name(vec![id("x"), s("a"), id("y"), s("b")])),
        shown(t(&["a b ", " ", ""], vec![id("x"), id("y")]))
    );
    assert_eq!(
        shown(merge_expression_for_class_name(vec![id("x"), id("y")])),
        shown(t(&["", " ", ""], vec![id("x"), id("y")]))
    );
}

#[test]
fn non_literal_class_names_fall_back_to_empty() {
    assert_eq!(format!("{:?}", convert_class_name(id("x"))), format!("{:?}", Expr::OrEmpty(Box::new(id("x")))));
    assert_eq!(format!("{:?}", convert_class_name(s("a"))), format!("{:?}", s("a")));
    assert_eq!(format!("{:?}", convert_class_name(Expr::Num("1".to_string()))), "Num(\"1\")");
}
