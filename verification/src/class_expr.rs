//! The `className` expression of an element: the class names of its styles
//! merged into one string literal, or into a template literal around the
//! expressions that are only known at run time.
use vstd::prelude::*;
use crate::text::{push_all, push_trimmed, str_eq, string_from, trim};

verus! {

/// A JavaScript expression, as far as class names need it.
#[derive(Debug)]
pub enum Expr {
    /// A string literal.
    Str(String),
    /// A numeric literal, by its source text.
    Num(String),
    /// An identifier.
    Ident(String),
    /// A template literal: its text pieces and the expressions between them.
    Template(Vec<String>, Vec<Expr>),
    /// `({"key": value, ...})[index]`, the keys written as string literals.
    Member(Vec<(String, Expr)>, Box<Expr>),
    /// `({key: value, ...})[index]`, the keys written as identifiers.
    IdentMember(Vec<(String, Expr)>, Box<Expr>),
    /// `test ? consequent : alternate`.
    Cond(Box<Expr>, Box<Expr>, Box<Expr>),
    /// `(e) || ""`.
    OrEmpty(Box<Expr>),
    /// Any other expression, by its source text.
    Other(String),
}

/// The mathematical value of an [`Expr`].
pub enum ExprView {
    Str(Seq<char>),
    Num(Seq<char>),
    Ident(Seq<char>),
    Template(Seq<Seq<char>>, Seq<ExprView>),
    Member(Seq<(Seq<char>, ExprView)>, Box<ExprView>),
    IdentMember(Seq<(Seq<char>, ExprView)>, Box<ExprView>),
    Cond(Box<ExprView>, Box<ExprView>, Box<ExprView>),
    OrEmpty(Box<ExprView>),
    Other(Seq<char>),
}

pub open spec fn strings_view(q: Seq<String>) -> Seq<Seq<char>> {
    q.map_values(|s: String| s@)
}

/// The view of an expression.
pub open spec fn expr_view(e: Expr) -> ExprView
    decreases e,
{
    match e {
        Expr::Str(s) => ExprView::Str(s@),
        Expr::Num(s) => ExprView::Num(s@),
        Expr::Ident(s) => ExprView::Ident(s@),
        Expr::Template(q, es) => ExprView::Template(
            strings_view(q@),
            Seq::new(
                es@.len(),
                |i: int|
                    if 0 <= i < es@.len() {
                        expr_view(es@[i])
                    } else {
                        ExprView::Other(Seq::empty())
                    },
            ),
        ),
        Expr::Member(props, index) => ExprView::Member(
            Seq::new(
                props@.len(),
                |i: int|
                    if 0 <= i < props@.len() {
                        (props@[i].0@, expr_view(props@[i].1))
                    } else {
                        (Seq::empty(), ExprView::Other(Seq::empty()))
                    },
            ),
            Box::new(expr_view(*index)),
        ),
        Expr::IdentMember(props, index) => ExprView::IdentMember(
            Seq::new(
                props@.len(),
                |i: int|
                    if 0 <= i < props@.len() {
                        (props@[i].0@, expr_view(props@[i].1))
                    } else {
                        (Seq::empty(), ExprView::Other(Seq::empty()))
                    },
            ),
            Box::new(expr_view(*index)),
        ),
        Expr::Cond(t, c, a) => ExprView::Cond(
            Box::new(expr_view(*t)),
            Box::new(expr_view(*c)),
            Box::new(expr_view(*a)),
        ),
        Expr::OrEmpty(x) => ExprView::OrEmpty(Box::new(expr_view(*x))),
        Expr::Other(s) => ExprView::Other(s@),
    }
}

impl View for Expr {
    type V = ExprView;

    open spec fn view(&self) -> ExprView {
        expr_view(*self)
    }
}

/// The views of a list of expressions.
pub open spec fn exprs_view(es: Seq<Expr>) -> Seq<ExprView> {
    es.map_values(|e: Expr| e@)
}

/// The view of an optional expression.
pub open spec fn opt_expr_view(o: Option<Expr>) -> Option<ExprView> {
    match o {
        Some(e) => Some(e@),
        None => None,
    }
}

/// The class names the string literals of `es` give: each trimmed, the
/// empty ones dropped, joined by single spaces.
pub open spec fn literal_names(es: Seq<ExprView>) -> Seq<char>
    decreases es.len(),
{
    if es.len() == 0 {
        Seq::empty()
    } else {
        let prev = literal_names(es.drop_last());
        match es.last() {
            ExprView::Str(s) => if trim(s).len() == 0 {
                prev
            } else if prev.len() == 0 {
                trim(s)
            } else {
                prev + seq![' '] + trim(s)
            },
            _ => prev,
        }
    }
}

/// The expressions of `es` that are not string literals, in order.
pub open spec fn unknown_exprs(es: Seq<ExprView>) -> Seq<ExprView>
    decreases es.len(),
{
    if es.len() == 0 {
        Seq::empty()
    } else {
        let prev = unknown_exprs(es.drop_last());
        match es.last() {
            ExprView::Str(_) => prev,
            e => prev.push(e),
        }
    }
}

/// The text pieces of a template literal with `n` expressions: the class
/// names and a space before the first, single spaces between the others,
/// and nothing after the last.
pub open spec fn class_quasis(names: Seq<char>, n: nat) -> Seq<Seq<char>> {
    Seq::new(
        n + 1,
        |i: int|
            if i == 0 {
                if names.len() == 0 {
                    Seq::empty()
                } else {
                    names + seq![' ']
                }
            } else if i == n {
                Seq::empty()
            } else {
                seq![' ']
            },
    )
}

/// Class-name expressions merged into one: `None` when there is nothing;
/// a string literal when every one is a string; the one expression itself
/// when it is alone and no class name is known; otherwise a template literal
/// of the class names followed by the expressions, separated by spaces.
pub open spec fn merged_class_names(es: Seq<ExprView>) -> Option<ExprView> {
    let names = literal_names(es);
    let unknown = unknown_exprs(es);
    if unknown.len() == 0 {
        if names.len() == 0 {
            None
        } else {
            Some(ExprView::Str(names))
        }
    } else if names.len() == 0 && unknown.len() == 1 {
        Some(unknown[0])
    } else {
        Some(ExprView::Template(class_quasis(names, unknown.len()), unknown))
    }
}

/// Merge class-name expressions (see [`merged_class_names`]).
pub fn merge_expression_for_class_name(expressions: Vec<Expr>) -> (r: Option<Expr>)
    ensures
        opt_expr_view(r) == merged_class_names(exprs_view(expressions@)),
{
    let ghost ev = exprs_view(expressions@);
    let n = expressions.len();
    let mut names: Vec<char> = Vec::new();
    let mut unknown: Vec<Expr> = Vec::new();
    let mut rest = expressions;
    let ghost all = rest@;
    let mut k: usize = 0;
    assert(ev.take(0) =~= Seq::<ExprView>::empty());
    while rest.len() > 0
        invariant
            k <= n,
            all.len() == n,
            ev == exprs_view(all),
            rest@ == all.skip(k as int),
            names@ == literal_names(ev.take(k as int)),
            exprs_view(unknown@) == unknown_exprs(ev.take(k as int)),
        decreases rest@.len(),
    {
        let e = rest.remove(0);
        assert(e == all[k as int]);
        assert(rest@ == all.skip(k + 1));
        assert(ev.take(k + 1).drop_last() == ev.take(k as int));
        assert(ev.take(k + 1).last() == e@);
        match e {
            Expr::Str(s) => {
                let mut v: Vec<char> = Vec::new();
                push_trimmed(&mut v, s.as_str());
                assert(v@ == trim(s@));
                if v.len() > 0 {
                    if names.len() > 0 {
                        names.push(' ');
                    }
                    let mut i: usize = 0;
                    let ghost before = names@;
                    while i < v.len()
                        invariant
                            i <= v@.len(),
                            names@ == before + v@.take(i as int),
                        decreases v@.len() - i,
                    {
                        names.push(v[i]);
                        assert(v@.take(i + 1) == v@.take(i as int).push(v@[i as int]));
                        i = i + 1;
                    }
                    assert(v@.take(i as int) == v@);
                }
            },
            other => {
                let ghost u = unknown@;
                unknown.push(other);
                assert(exprs_view(unknown@) == exprs_view(u).push(other@));
            },
        }
        k = k + 1;
    }
    assert(ev.take(k as int) == ev);
    if unknown.len() == 0 {
        if names.len() == 0 {
            return None;
        }
        return Some(Expr::Str(string_from(&names)));
    }
    if names.len() == 0 && unknown.len() == 1 {
        let e = unknown.pop().unwrap();
        return Some(e);
    }
    let m = unknown.len();
    let ghost cq = class_quasis(names@, m as nat);
    let mut quasis: Vec<String> = Vec::new();
    let first = if names.len() == 0 {
        String::new()
    } else {
        let mut w: Vec<char> = Vec::new();
        push_all(&mut w, &names);
        w.push(' ');
        string_from(&w)
    };
    quasis.push(first);
    assert(cq[0] == first@);
    assert(strings_view(quasis@) =~= seq![first@]);
    assert(cq.take(1) =~= seq![cq[0]]);
    let mut idx: usize = 1;
    while idx < m
        invariant
            1 <= idx <= m,
            m == unknown@.len(),
            cq == class_quasis(names@, m as nat),
            strings_view(quasis@) == cq.take(idx as int),
        decreases m - idx,
    {
        let mut sp: Vec<char> = Vec::new();
        sp.push(' ');
        let q = string_from(&sp);
        let ghost qs = quasis@;
        quasis.push(q);
        assert(strings_view(quasis@) == strings_view(qs).push(q@));
        assert(cq.take(idx + 1) == cq.take(idx as int).push(cq[idx as int]));
        idx = idx + 1;
    }
    let ghost qs = quasis@;
    quasis.push(String::new());
    assert(strings_view(quasis@) == strings_view(qs).push(Seq::<char>::empty()));
    assert(cq.take(m + 1) == cq.take(m as int).push(cq[m as int]));
    assert(cq.take(m + 1) == cq);
    let ghost uv = unknown@;
    let ghost qv = quasis@;
    assert(strings_view(qv) == cq);
    assert(exprs_view(uv) == unknown_exprs(ev));
    assert(names@ == literal_names(ev));
    let r = Expr::Template(quasis, unknown);
    proof {
        match r@ {
            ExprView::Template(a, b) => {
                assert(a == strings_view(qv));
                assert(b.len() == uv.len());
                assert forall|i: int| 0 <= i < b.len() implies b[i] == exprs_view(uv)[i] by {
                    assert(b[i] == expr_view(uv[i]));
                }
                assert(b =~= exprs_view(uv));
            },
            _ => {
                assert(false);
            },
        }
    }
    assert(r@ == ExprView::Template(cq, unknown_exprs(ev)));
    assert(merged_class_names(ev) == Some(ExprView::Template(cq, unknown_exprs(ev))));
    Some(r)
}

/// A class name that may not be a string: a string, template or numeric
/// literal is kept; any other expression `e` becomes `(e) || ""`.
pub open spec fn converted_class_name(e: ExprView) -> ExprView {
    match e {
        ExprView::Str(_) | ExprView::Template(_, _) | ExprView::Num(_) => e,
        _ => ExprView::OrEmpty(Box::new(e)),
    }
}

/// [`converted_class_name`].
pub fn convert_class_name(class_name: Expr) -> (r: Expr)
    ensures
        r@ == converted_class_name(class_name@),
{
    match class_name {
        Expr::Str(_) | Expr::Template(_, _) | Expr::Num(_) => class_name,
        _ => Expr::OrEmpty(Box::new(class_name)),
    }
}

/// A copy of a string.
fn copy_string(s: &String) -> (r: String)
    ensures
        r@ == s@,
{
    s.as_str().to_string()
}

/// A copy of an expression.
pub fn copy_expr(e: &Expr) -> (r: Expr)
    ensures
        r@ == e@,
    decreases e,
{
    match e {
        Expr::Str(s) => Expr::Str(copy_string(s)),
        Expr::Num(s) => Expr::Num(copy_string(s)),
        Expr::Ident(s) => Expr::Ident(copy_string(s)),
        Expr::Other(s) => Expr::Other(copy_string(s)),
        Expr::Template(q, es) => {
            let mut q2: Vec<String> = Vec::new();
            let mut i: usize = 0;
            while i < q.len()
                invariant
                    i <= q@.len(),
                    strings_view(q2@) == strings_view(q@).take(i as int),
                decreases q@.len() - i,
            {
                let ghost old_q2 = q2@;
                q2.push(copy_string(&q[i]));
                assert(strings_view(q2@) == strings_view(old_q2).push(q@[i as int]@));
                assert(strings_view(q@).take(i + 1) == strings_view(q@).take(i as int).push(q@[i as int]@));
                i = i + 1;
            }
            assert(strings_view(q@).take(i as int) == strings_view(q@));
            let mut es2: Vec<Expr> = Vec::new();
            let mut j: usize = 0;
            while j < es.len()
                invariant
                    *e == Expr::Template(*q, *es),
                    j <= es@.len(),
                    es2@.len() == j,
                    forall|k: int| 0 <= k < j ==> expr_view(#[trigger] es2@[k]) == expr_view(es@[k]),
                decreases es@.len() - j,
            {
                proof {
                    assert(decreases_to!(*e => (*e)->Template_1));
                    assert(decreases_to!(*es => es@));
                    assert(decreases_to!(es@ => es@[j as int]));
                }
                let x = copy_expr(&es[j]);
                es2.push(x);
                j = j + 1;
            }
            let r = Expr::Template(q2, es2);
            proof {
                match r@ {
                    ExprView::Template(a, b) => {
                        assert(a == strings_view(q@));
                        assert(b =~= match e@ {
                            ExprView::Template(_, b0) => b0,
                            _ => b,
                        });
                    },
                    _ => {},
                }
            }
            r
        },
        Expr::Member(props, idx) => {
            let mut p2: Vec<(String, Expr)> = Vec::new();
            let mut j: usize = 0;
            while j < props.len()
                invariant
                    *e == Expr::Member(*props, *idx),
                    j <= props@.len(),
                    p2@.len() == j,
                    forall|k: int|
                        0 <= k < j ==> (#[trigger] p2@[k]).0@ == props@[k].0@ && expr_view(p2@[k].1)
                            == expr_view(props@[k].1),
                decreases props@.len() - j,
            {
                let k2 = copy_string(&props[j].0);
                proof {
                    assert(decreases_to!(*e => (*e)->Member_0));
                    assert(decreases_to!(*props => props@));
                    assert(decreases_to!(props@ => props@[j as int]));
                    assert(decreases_to!(props@[j as int] => props@[j as int].1));
                }
                let x = copy_expr(&props[j].1);
                p2.push((k2, x));
                j = j + 1;
            }
            let i2 = copy_expr(&**idx);
            let r = Expr::Member(p2, Box::new(i2));
            proof {
                match (r@, e@) {
                    (ExprView::Member(a, _), ExprView::Member(b, _)) => {
                        assert(a =~= b);
                    },
                    _ => {},
                }
            }
            r
        },
        Expr::IdentMember(props, idx) => {
            let mut p2: Vec<(String, Expr)> = Vec::new();
            let mut j: usize = 0;
            while j < props.len()
                invariant
                    *e == Expr::IdentMember(*props, *idx),
                    j <= props@.len(),
                    p2@.len() == j,
                    forall|k: int|
                        0 <= k < j ==> (#[trigger] p2@[k]).0@ == props@[k].0@ && expr_view(p2@[k].1)
                            == expr_view(props@[k].1),
                decreases props@.len() - j,
            {
                let k2 = copy_string(&props[j].0);
                proof {
                    assert(decreases_to!(*e => (*e)->IdentMember_0));
                    assert(decreases_to!(*props => props@));
                    assert(decreases_to!(props@ => props@[j as int]));
                    assert(decreases_to!(props@[j as int] => props@[j as int].1));
                }
                let x = copy_expr(&props[j].1);
                p2.push((k2, x));
                j = j + 1;
            }
            let i2 = copy_expr(&**idx);
            let r = Expr::IdentMember(p2, Box::new(i2));
            proof {
                match (r@, e@) {
                    (ExprView::IdentMember(a, _), ExprView::IdentMember(b, _)) => {
                        assert(a =~= b);
                    },
                    _ => {},
                }
            }
            r
        },
        Expr::Cond(t, c, a) => Expr::Cond(
            Box::new(copy_expr(&**t)),
            Box::new(copy_expr(&**c)),
            Box::new(copy_expr(&**a)),
        ),
        Expr::OrEmpty(x) => Expr::OrEmpty(Box::new(copy_expr(&**x))),
    }
}

/// Whether two expressions are the same.
pub fn same_expr(a: &Expr, b: &Expr) -> (r: bool)
    ensures
        r == (a@ == b@),
    decreases a,
{
    match (a, b) {
        (Expr::Str(x), Expr::Str(y)) => str_eq(x.as_str(), y.as_str()),
        (Expr::Num(x), Expr::Num(y)) => str_eq(x.as_str(), y.as_str()),
        (Expr::Ident(x), Expr::Ident(y)) => str_eq(x.as_str(), y.as_str()),
        (Expr::Other(x), Expr::Other(y)) => str_eq(x.as_str(), y.as_str()),
        (Expr::Template(q1, e1), Expr::Template(q2, e2)) => {
            let ghost va = a@;
            let ghost vb = b@;
            if q1.len() != q2.len() || e1.len() != e2.len() {
                proof {
                    match (va, vb) {
                        (ExprView::Template(x1, y1), ExprView::Template(x2, y2)) => {
                            assert(x1.len() != x2.len() || y1.len() != y2.len());
                        },
                        _ => {},
                    }
                }
                return false;
            }
            let mut i: usize = 0;
            while i < q1.len()
                invariant
                    va == a@,
                    vb == b@,
                    *a == Expr::Template(*q1, *e1),
                    *b == Expr::Template(*q2, *e2),
                    i <= q1@.len() == q2@.len(),
                    forall|k: int| 0 <= k < i ==> (#[trigger] q1@[k])@ == q2@[k]@,
                decreases q1@.len() - i,
            {
                if !str_eq(q1[i].as_str(), q2[i].as_str()) {
                    proof {
                        match (va, vb) {
                            (ExprView::Template(x1, _), ExprView::Template(x2, _)) => {
                                assert(x1[i as int] != x2[i as int]);
                            },
                            _ => {},
                        }
                    }
                    return false;
                }
                i = i + 1;
            }
            let mut j: usize = 0;
            while j < e1.len()
                invariant
                    va == a@,
                    vb == b@,
                    *a == Expr::Template(*q1, *e1),
                    *b == Expr::Template(*q2, *e2),
                    forall|k: int| 0 <= k < q1@.len() ==> (#[trigger] q1@[k])@ == q2@[k]@,
                    q1@.len() == q2@.len(),
                    j <= e1@.len() == e2@.len(),
                    forall|k: int| 0 <= k < j ==> expr_view(#[trigger] e1@[k]) == expr_view(e2@[k]),
                decreases e1@.len() - j,
            {
                proof {
                    assert(decreases_to!(*a => (*a)->Template_1));
                    assert(decreases_to!(*e1 => e1@));
                    assert(decreases_to!(e1@ => e1@[j as int]));
                }
                if !same_expr(&e1[j], &e2[j]) {
                    proof {
                        match (va, vb) {
                            (ExprView::Template(_, y1), ExprView::Template(_, y2)) => {
                                assert(y1[j as int] != y2[j as int]);
                            },
                            _ => {},
                        }
                    }
                    return false;
                }
                j = j + 1;
            }
            proof {
                match (va, vb) {
                    (ExprView::Template(x1, y1), ExprView::Template(x2, y2)) => {
                        assert(x1 =~= x2);
                        assert(y1 =~= y2);
                    },
                    _ => {},
                }
            }
            true
        },
        (Expr::Member(p1, i1), Expr::Member(p2, i2)) => {
            let ghost va = a@;
            let ghost vb = b@;
            if p1.len() != p2.len() {
                proof {
                    match (va, vb) {
                        (ExprView::Member(x1, _), ExprView::Member(x2, _)) => {
                            assert(x1.len() != x2.len());
                        },
                        _ => {},
                    }
                }
                return false;
            }
            let mut j: usize = 0;
            while j < p1.len()
                invariant
                    va == a@,
                    vb == b@,
                    *a == Expr::Member(*p1, *i1),
                    *b == Expr::Member(*p2, *i2),
                    j <= p1@.len() == p2@.len(),
                    forall|k: int|
                        0 <= k < j ==> (#[trigger] p1@[k]).0@ == p2@[k].0@ && expr_view(p1@[k].1) == expr_view(
                            p2@[k].1,
                        ),
                decreases p1@.len() - j,
            {
                if !str_eq(p1[j].0.as_str(), p2[j].0.as_str()) {
                    proof {
                        match (va, vb) {
                            (ExprView::Member(x1, _), ExprView::Member(x2, _)) => {
                                assert(x1[j as int].0 != x2[j as int].0);
                            },
                            _ => {},
                        }
                    }
                    return false;
                }
                proof {
                    assert(decreases_to!(*a => (*a)->Member_0));
                    assert(decreases_to!(*p1 => p1@));
                    assert(decreases_to!(p1@ => p1@[j as int]));
                    assert(decreases_to!(p1@[j as int] => p1@[j as int].1));
                }
                if !same_expr(&p1[j].1, &p2[j].1) {
                    proof {
                        match (va, vb) {
                            (ExprView::Member(x1, _), ExprView::Member(x2, _)) => {
                                assert(x1[j as int].1 != x2[j as int].1);
                            },
                            _ => {},
                        }
                    }
                    return false;
                }
                j = j + 1;
            }
            let same_index = same_expr(&**i1, &**i2);
            proof {
                match (va, vb) {
                    (ExprView::Member(x1, _), ExprView::Member(x2, _)) => {
                        if same_index {
                            assert(x1 =~= x2);
                        }
                    },
                    _ => {},
                }
            }
            same_index
        },
        (Expr::IdentMember(p1, i1), Expr::IdentMember(p2, i2)) => {
            let ghost va = a@;
            let ghost vb = b@;
            if p1.len() != p2.len() {
                proof {
                    match (va, vb) {
                        (ExprView::IdentMember(x1, _), ExprView::IdentMember(x2, _)) => {
                            assert(x1.len() != x2.len());
                        },
                        _ => {},
                    }
                }
                return false;
            }
            let mut j: usize = 0;
            while j < p1.len()
                invariant
                    va == a@,
                    vb == b@,
                    *a == Expr::IdentMember(*p1, *i1),
                    *b == Expr::IdentMember(*p2, *i2),
                    j <= p1@.len() == p2@.len(),
                    forall|k: int|
                        0 <= k < j ==> (#[trigger] p1@[k]).0@ == p2@[k].0@ && expr_view(p1@[k].1) == expr_view(
                            p2@[k].1,
                        ),
                decreases p1@.len() - j,
            {
                if !str_eq(p1[j].0.as_str(), p2[j].0.as_str()) {
                    proof {
                        match (va, vb) {
                            (ExprView::IdentMember(x1, _), ExprView::IdentMember(x2, _)) => {
                                assert(x1[j as int].0 != x2[j as int].0);
                            },
                            _ => {},
                        }
                    }
                    return false;
                }
                proof {
                    assert(decreases_to!(*a => (*a)->IdentMember_0));
                    assert(decreases_to!(*p1 => p1@));
                    assert(decreases_to!(p1@ => p1@[j as int]));
                    assert(decreases_to!(p1@[j as int] => p1@[j as int].1));
                }
                if !same_expr(&p1[j].1, &p2[j].1) {
                    proof {
                        match (va, vb) {
                            (ExprView::IdentMember(x1, _), ExprView::IdentMember(x2, _)) => {
                                assert(x1[j as int].1 != x2[j as int].1);
                            },
                            _ => {},
                        }
                    }
                    return false;
                }
                j = j + 1;
            }
            let same_index = same_expr(&**i1, &**i2);
            proof {
                match (va, vb) {
                    (ExprView::IdentMember(x1, _), ExprView::IdentMember(x2, _)) => {
                        if same_index {
                            assert(x1 =~= x2);
                        }
                    },
                    _ => {},
                }
            }
            same_index
        },
        (Expr::Cond(t1, c1, a1), Expr::Cond(t2, c2, a2)) => same_expr(&**t1, &**t2) && same_expr(&**c1, &**c2)
            && same_expr(&**a1, &**a2),
        (Expr::OrEmpty(x), Expr::OrEmpty(y)) => same_expr(&**x, &**y),
        _ => false,
    }
}

} // verus!
