//! The `className` expression of an element, generated from its style props:
//! each static style is named (in the order the props are walked), and the
//! names are merged with the expressions known only at run time.
use vstd::prelude::*;
use crate::class_expr::{
    convert_class_name, converted_class_name, copy_expr, exprs_view, merge_expression_for_class_name,
    merged_class_names, opt_expr_view, same_expr, Expr, ExprView,
};
use crate::extract_style::{
    class_selector, class_value, values_view, with_style_order, ExtractStyleValue, StyleProperty, StyleValueView,
};
use crate::file_map::file_pairs;
use crate::naming::{class_map_in, class_name_in, opt_seq, pairs_after, same_settings, style_file, variable_map_after};
use crate::state::CssState;

verus! {

/// What naming depends on: debug mode, the class map and the file numbers.
pub struct NamingState {
    pub debug: bool,
    pub cm: Seq<(Seq<char>, Seq<(Seq<char>, usize)>)>,
    pub pairs: Map<Seq<char>, usize>,
}

/// The naming state of `st`.
pub open spec fn naming(st: CssState) -> NamingState {
    NamingState { debug: st.debug, cm: st.class_map@, pairs: file_pairs(st.file_map) }
}

/// The class name a style value puts on its element (an import puts none).
pub open spec fn value_class_name(n: NamingState, v: StyleValueView, f: Option<Seq<char>>) -> Option<Seq<char>> {
    match v {
        StyleValueView::Static(s) => Some(class_name_in(
            n.debug,
            n.cm,
            n.pairs,
            s.property,
            s.level,
            Some(class_value(s)),
            class_selector(s.selector),
            s.style_order,
            f,
        )),
        StyleValueView::Dynamic(d) => Some(class_name_in(
            n.debug,
            n.cm,
            n.pairs,
            d.property,
            d.level,
            None,
            class_selector(d.selector),
            d.style_order,
            f,
        )),
        StyleValueView::Typography(t) => Some(seq!['t', 'y', 'p', 'o', '-'] + t),
        StyleValueView::Import(..) => None,
    }
}

/// The naming state once a style value is named.
pub open spec fn value_naming_after(n: NamingState, v: StyleValueView, f: Option<Seq<char>>) -> NamingState {
    match v {
        StyleValueView::Static(s) => NamingState {
            debug: n.debug,
            cm: class_map_in(
                n.debug,
                n.cm,
                n.pairs,
                s.property,
                s.level,
                Some(class_value(s)),
                class_selector(s.selector),
                s.style_order,
                f,
            ),
            pairs: pairs_after(n.pairs, style_file(s.style_order, f)),
        },
        StyleValueView::Dynamic(d) => {
            let sel = class_selector(d.selector);
            let cm1 = class_map_in(n.debug, n.cm, n.pairs, d.property, d.level, None, sel, d.style_order, f);
            NamingState {
                debug: n.debug,
                cm: variable_map_after(n.debug, cm1, d.property, d.level, sel),
                pairs: pairs_after(n.pairs, style_file(d.style_order, f)),
            }
        },
        StyleValueView::Typography(_) => n,
        StyleValueView::Import(..) => n,
    }
}

/// A class name as a string literal.
pub open spec fn str_of(c: Option<Seq<char>>) -> Option<ExprView> {
    match c {
        Some(t) => Some(ExprView::Str(t)),
        None => None,
    }
}

/// A style prop of an element, as the extractor read it.
#[derive(Debug)]
pub enum StyleProp {
    /// One style.
    Static(ExtractStyleValue),
    /// Several props, in order.
    StaticArray(Vec<StyleProp>),
    /// `condition ? consequent : alternate`.
    Conditional { condition: Expr, consequent: Option<Box<StyleProp>>, alternate: Option<Box<StyleProp>> },
    /// Props chosen by `condition` among keyed lists (keys in order).
    Enum { condition: Expr, map: Vec<(String, Vec<StyleProp>)> },
    /// An expression whose styles are known but whose class name is the
    /// expression itself.
    Expression { styles: Vec<ExtractStyleValue>, expression: Expr },
    /// `({key: prop, ...})[expression]` (keys in order).
    MemberExpression { map: Vec<(String, Box<StyleProp>)>, expression: Expr },
}

/// The mathematical value of a [`StyleProp`].
pub enum PropView {
    Static(StyleValueView),
    StaticArray(Seq<PropView>),
    Conditional(ExprView, Option<Box<PropView>>, Option<Box<PropView>>),
    Enum(ExprView, Seq<(Seq<char>, Seq<PropView>)>),
    Expression(Seq<StyleValueView>, ExprView),
    MemberExpression(Seq<(Seq<char>, PropView)>, ExprView),
}

pub open spec fn props_view(ps: Seq<StyleProp>) -> Seq<PropView>
    decreases ps,
{
    Seq::new(
        ps.len(),
        |i: int|
            if 0 <= i < ps.len() {
                prop_view(ps[i])
            } else {
                PropView::StaticArray(Seq::empty())
            },
    )
}

/// The view of a style prop.
pub open spec fn prop_view(p: StyleProp) -> PropView
    decreases p,
{
    match p {
        StyleProp::Static(v) => PropView::Static(v@),
        StyleProp::StaticArray(ps) => PropView::StaticArray(props_view(ps@)),
        StyleProp::Conditional { condition, consequent, alternate } => PropView::Conditional(
            condition@,
            match consequent {
                Some(b) => Some(Box::new(prop_view(*b))),
                None => None,
            },
            match alternate {
                Some(b) => Some(Box::new(prop_view(*b))),
                None => None,
            },
        ),
        StyleProp::Enum { condition, map } => PropView::Enum(
            condition@,
            Seq::new(
                map@.len(),
                |i: int|
                    if 0 <= i < map@.len() {
                        (map@[i].0@, props_view(map@[i].1@))
                    } else {
                        (Seq::empty(), Seq::empty())
                    },
            ),
        ),
        StyleProp::Expression { styles, expression } => PropView::Expression(values_view(styles@), expression@),
        StyleProp::MemberExpression { map, expression } => PropView::MemberExpression(
            Seq::new(
                map@.len(),
                |i: int|
                    if 0 <= i < map@.len() {
                        (map@[i].0@, prop_view(*map@[i].1))
                    } else {
                        (Seq::empty(), PropView::StaticArray(Seq::empty()))
                    },
            ),
            expression@,
        ),
    }
}

impl View for StyleProp {
    type V = PropView;

    open spec fn view(&self) -> PropView {
        prop_view(*self)
    }
}

/// The result of generating class names: the naming state after, the class
/// name expression (if any) and the prop with its style orders set.
pub type Gen = (NamingState, Option<ExprView>, PropView);

/// The present expression, as a sequence of at most one.
pub open spec fn opt_seq_expr(e: Option<ExprView>) -> Seq<ExprView> {
    match e {
        Some(x) => seq![x],
        None => Seq::empty(),
    }
}

/// A missing class name as the empty string literal.
pub open spec fn or_empty_str(e: Option<ExprView>) -> ExprView {
    match e {
        Some(x) => x,
        None => ExprView::Str(Seq::empty()),
    }
}

/// Class names of a list of props, walked in order: the state after, the
/// expressions of the props that have one, and the props.
pub open spec fn gen_list(
    n: NamingState,
    ps: Seq<PropView>,
    order: Option<u8>,
    f: Option<Seq<char>>,
) -> (NamingState, Seq<ExprView>, Seq<PropView>)
    decreases ps, 0nat,
{
    if ps.len() == 0 {
        (n, Seq::empty(), Seq::empty())
    } else {
        let (n1, es, ps1) = gen_list(n, ps.subrange(0, ps.len() - 1), order, f);
        let (n2, e, p2) = gen_prop(n1, ps[ps.len() - 1], order, f);
        (n2, es + opt_seq_expr(e), ps1.push(p2))
    }
}

/// The keyed lists of an enum prop, walked in order: each key whose list
/// merges into a class name, with that name.
pub open spec fn gen_enum(
    n: NamingState,
    m: Seq<(Seq<char>, Seq<PropView>)>,
    order: Option<u8>,
    f: Option<Seq<char>>,
) -> (NamingState, Seq<(Seq<char>, ExprView)>, Seq<(Seq<char>, Seq<PropView>)>)
    decreases m, 0nat,
{
    if m.len() == 0 {
        (n, Seq::empty(), Seq::empty())
    } else {
        let (n1, props, m1) = gen_enum(n, m.subrange(0, m.len() - 1), order, f);
        let entry = m[m.len() - 1];
        let (n2, es, ps2) = gen_list(n1, entry.1, order, f);
        let props2 = match merged_class_names(es) {
            Some(c) => props.push((entry.0, c)),
            None => props,
        };
        (n2, props2, m1.push((entry.0, ps2)))
    }
}

/// The keyed props of a member prop, walked in order: each key whose prop
/// has a class name, with that name.
pub open spec fn gen_members(
    n: NamingState,
    m: Seq<(Seq<char>, PropView)>,
    order: Option<u8>,
    f: Option<Seq<char>>,
) -> (NamingState, Seq<(Seq<char>, ExprView)>, Seq<(Seq<char>, PropView)>)
    decreases m, 0nat,
{
    if m.len() == 0 {
        (n, Seq::empty(), Seq::empty())
    } else {
        let (n1, props, m1) = gen_members(n, m.subrange(0, m.len() - 1), order, f);
        let entry = m[m.len() - 1];
        let (n2, e, p2) = gen_prop(n1, entry.1, order, f);
        let props2 = match e {
            Some(c) => props.push((entry.0, c)),
            None => props,
        };
        (n2, props2, m1.push((entry.0, p2)))
    }
}

/// The class name of one prop: a style is named (after taking the style
/// order, which a static style only takes when it has none); a list merges
/// the names of its props; a conditional picks between the names of its
/// branches (the empty string for a missing one), or is that name when both
/// agree; an enum or member prop indexes an object of the keyed names by its
/// expression (an enum, and a member prop indexed by an identifier, with
/// `|| ""` around it); an expression prop is its expression.
pub open spec fn gen_prop(n: NamingState, p: PropView, order: Option<u8>, f: Option<Seq<char>>) -> Gen
    decreases p, 1nat,
{
    match p {
        PropView::Static(v) => {
            let v2 = match order {
                Some(o) => with_style_order(v, o),
                None => v,
            };
            (
                value_naming_after(n, v2, f),
                str_of(value_class_name(n, v2, f)),
                PropView::Static(v2),
            )
        },
        PropView::StaticArray(ps) => {
            let (n2, es, ps2) = gen_list(n, ps, order, f);
            (n2, merged_class_names(es), PropView::StaticArray(ps2))
        },
        PropView::Conditional(c, cons, alt) => {
            let (n1, ce, cons2) = match cons {
                Some(b) => {
                    let (n1, e, p1) = gen_prop(n, *b, order, f);
                    (n1, e, Some(Box::new(p1)))
                },
                None => (n, None, None),
            };
            let (n2, ae, alt2) = match alt {
                Some(b) => {
                    let (n2, e, p2) = gen_prop(n1, *b, order, f);
                    (n2, e, Some(Box::new(p2)))
                },
                None => (n1, None, None),
            };
            let c1 = or_empty_str(ce);
            let a1 = or_empty_str(ae);
            (
                n2,
                Some(
                    if c1 == a1 {
                        c1
                    } else {
                        ExprView::Cond(Box::new(c), Box::new(c1), Box::new(a1))
                    },
                ),
                PropView::Conditional(c, cons2, alt2),
            )
        },
        PropView::Enum(c, m) => {
            let (n2, props, m2) = gen_enum(n, m, order, f);
            (
                n2,
                Some(converted_class_name(ExprView::Member(props, Box::new(c)))),
                PropView::Enum(c, m2),
            )
        },
        PropView::Expression(styles, e) => (n, Some(e), p),
        PropView::MemberExpression(m, e) => {
            let (n2, props, m2) = gen_members(n, m, order, f);
            let exp = ExprView::Member(props, Box::new(e));
            (
                n2,
                Some(
                    if e is Ident {
                        converted_class_name(exp)
                    } else {
                        exp
                    },
                ),
                PropView::MemberExpression(m2, e),
            )
        },
    }
}

/// The views of (key, expression) pairs.
pub open spec fn keyed_exprs_view(v: Seq<(String, Expr)>) -> Seq<(Seq<char>, ExprView)> {
    Seq::new(v.len(), |i: int| (v[i].0@, v[i].1@))
}

/// The views of the keyed lists of an enum prop.
pub open spec fn enum_entries_view(v: Seq<(String, Vec<StyleProp>)>) -> Seq<(Seq<char>, Seq<PropView>)> {
    Seq::new(v.len(), |i: int| (v[i].0@, props_view(v[i].1@)))
}

/// The views of the keyed props of a member prop.
pub open spec fn member_entries_view(v: Seq<(String, Box<StyleProp>)>) -> Seq<(Seq<char>, PropView)> {
    Seq::new(v.len(), |i: int| (v[i].0@, prop_view(*v[i].1)))
}

/// A style named: its style order set first, then its class name read from
/// what it puts on its element.
fn gen_value(st: &mut CssState, v: ExtractStyleValue, order: Option<u8>, filename: Option<&str>) -> (r: (
    ExtractStyleValue,
    Option<Expr>,
))
    requires
        old(st).wf(),
    ensures
        final(st).wf(),
        same_settings(*final(st), *old(st)),
        ({
            let v2 = match order {
                Some(o) => with_style_order(v@, o),
                None => v@,
            };
            &&& r.0@ == v2
            &&& opt_expr_view(r.1) == str_of(value_class_name(naming(*old(st)), v2, opt_seq(filename)))
            &&& naming(*final(st)) == value_naming_after(naming(*old(st)), v2, opt_seq(filename))
        }),
{
    let mut v = v;
    if let Some(o) = order {
        v.set_style_order(o);
    }
    let p = v.extract(st, filename);
    proof {
        reveal_strlit("typo-");
        assert("typo-"@ == seq!['t', 'y', 'p', 'o', '-']);
    }
    let name = match p {
        Some(StyleProperty::ClassName(c)) => Some(Expr::Str(c)),
        Some(StyleProperty::Variable { class_name, .. }) => Some(Expr::Str(class_name)),
        None => None,
    };
    (v, name)
}

/// The class names of a list of props, walked in order (see [`gen_list`]).
fn gen_vec(st: &mut CssState, ps: Vec<StyleProp>, order: Option<u8>, filename: Option<&str>) -> (r: (
    Vec<StyleProp>,
    Vec<Expr>,
))
    requires
        old(st).wf(),
    ensures
        final(st).wf(),
        same_settings(*final(st), *old(st)),
        gen_list(naming(*old(st)), props_view(ps@), order, opt_seq(filename)) == (
            naming(*final(st)),
            exprs_view(r.1@),
            props_view(r.0@),
        ),
    decreases ps@,
{
    let ghost gps = ps@;
    let mut ps = ps;
    match ps.pop() {
        None => {
            assert(props_view(gps) =~= Seq::<PropView>::empty());
            (Vec::new(), Vec::new())
        },
        Some(last) => {
            proof {
                assert(ps@ == gps.subrange(0, gps.len() - 1));
                assert(decreases_to!(gps => gps.subrange(0, gps.len() - 1)));
                assert(decreases_to!(gps => gps[gps.len() - 1]));
                assert(props_view(gps).subrange(0, gps.len() - 1) =~= props_view(ps@));
                assert(props_view(gps)[gps.len() - 1] == prop_view(last));
            }
            let (mut ps2, mut es) = gen_vec(st, ps, order, filename);
            let (p2, e) = gen_class_name(st, last, order, filename);
            let ghost old_ps2 = ps2@;
            let ghost old_es = es@;
            ps2.push(p2);
            match e {
                Some(x) => {
                    es.push(x);
                    assert(exprs_view(es@) =~= exprs_view(old_es) + seq![x@]);
                },
                None => {
                    assert(exprs_view(es@) =~= exprs_view(old_es) + Seq::<ExprView>::empty());
                },
            }
            assert(props_view(ps2@) =~= props_view(old_ps2).push(p2@));
            (ps2, es)
        },
    }
}

/// The keyed lists of an enum prop, walked in order (see [`gen_enum`]).
fn gen_enum_vec(
    st: &mut CssState,
    m: Vec<(String, Vec<StyleProp>)>,
    order: Option<u8>,
    filename: Option<&str>,
) -> (r: (Vec<(String, Vec<StyleProp>)>, Vec<(String, Expr)>))
    requires
        old(st).wf(),
    ensures
        final(st).wf(),
        same_settings(*final(st), *old(st)),
        gen_enum(naming(*old(st)), enum_entries_view(m@), order, opt_seq(filename)) == (
            naming(*final(st)),
            keyed_exprs_view(r.1@),
            enum_entries_view(r.0@),
        ),
    decreases m@,
{
    let ghost gm = m@;
    let mut m = m;
    match m.pop() {
        None => {
            assert(enum_entries_view(gm) =~= Seq::<(Seq<char>, Seq<PropView>)>::empty());
            assert(keyed_exprs_view(Seq::<(String, Expr)>::empty()) =~= Seq::<(Seq<char>, ExprView)>::empty());
            (Vec::new(), Vec::new())
        },
        Some(last) => {
            proof {
                assert(m@ == gm.subrange(0, gm.len() - 1));
                assert(decreases_to!(gm => gm.subrange(0, gm.len() - 1)));
                assert(decreases_to!(gm => gm[gm.len() - 1]));
                assert(decreases_to!(gm[gm.len() - 1] => gm[gm.len() - 1].1));
                assert(decreases_to!(gm[gm.len() - 1].1 => gm[gm.len() - 1].1@));
                assert(enum_entries_view(gm).subrange(0, gm.len() - 1) =~= enum_entries_view(m@));
            }
            let (mut m2, mut props) = gen_enum_vec(st, m, order, filename);
            let (key, list) = last;
            let (list2, es) = gen_vec(st, list, order, filename);
            let ghost old_m2 = m2@;
            let ghost old_props = props@;
            let ghost ges = exprs_view(es@);
            let merged = merge_expression_for_class_name(es);
            match merged {
                Some(c) => {
                    let k2 = key.as_str().to_string();
                    props.push((k2, c));
                    assert(keyed_exprs_view(props@) =~= keyed_exprs_view(old_props).push((key@, c@)));
                },
                None => {},
            }
            m2.push((key, list2));
            assert(enum_entries_view(m2@) =~= enum_entries_view(old_m2).push((key@, props_view(list2@))));
            (m2, props)
        },
    }
}

/// The keyed props of a member prop, walked in order (see [`gen_members`]).
fn gen_member_vec(
    st: &mut CssState,
    m: Vec<(String, Box<StyleProp>)>,
    order: Option<u8>,
    filename: Option<&str>,
) -> (r: (Vec<(String, Box<StyleProp>)>, Vec<(String, Expr)>))
    requires
        old(st).wf(),
    ensures
        final(st).wf(),
        same_settings(*final(st), *old(st)),
        gen_members(naming(*old(st)), member_entries_view(m@), order, opt_seq(filename)) == (
            naming(*final(st)),
            keyed_exprs_view(r.1@),
            member_entries_view(r.0@),
        ),
    decreases m@,
{
    let ghost gm = m@;
    let mut m = m;
    match m.pop() {
        None => {
            assert(member_entries_view(gm) =~= Seq::<(Seq<char>, PropView)>::empty());
            assert(keyed_exprs_view(Seq::<(String, Expr)>::empty()) =~= Seq::<(Seq<char>, ExprView)>::empty());
            (Vec::new(), Vec::new())
        },
        Some(last) => {
            proof {
                assert(m@ == gm.subrange(0, gm.len() - 1));
                assert(decreases_to!(gm => gm.subrange(0, gm.len() - 1)));
                assert(decreases_to!(gm => gm[gm.len() - 1]));
                assert(decreases_to!(gm[gm.len() - 1] => gm[gm.len() - 1].1));
                assert(member_entries_view(gm).subrange(0, gm.len() - 1) =~= member_entries_view(m@));
            }
            let (mut m2, mut props) = gen_member_vec(st, m, order, filename);
            let (key, b) = last;
            let (p2, e) = gen_class_name(st, *b, order, filename);
            let ghost old_m2 = m2@;
            let ghost old_props = props@;
            match e {
                Some(c) => {
                    let k2 = key.as_str().to_string();
                    props.push((k2, c));
                    assert(keyed_exprs_view(props@) =~= keyed_exprs_view(old_props).push((key@, c@)));
                },
                None => {},
            }
            m2.push((key, Box::new(p2)));
            assert(member_entries_view(m2@) =~= member_entries_view(old_m2).push((key@, p2@)));
            (m2, props)
        },
    }
}

/// The class name of one prop, naming its styles against `st` (see
/// [`gen_prop`]); the prop comes back with its style orders set.
pub fn gen_class_name(st: &mut CssState, p: StyleProp, order: Option<u8>, filename: Option<&str>) -> (r: (
    StyleProp,
    Option<Expr>,
))
    requires
        old(st).wf(),
    ensures
        final(st).wf(),
        same_settings(*final(st), *old(st)),
        gen_prop(naming(*old(st)), p@, order, opt_seq(filename)) == (naming(*final(st)), opt_expr_view(r.1), r.0@),
    decreases p,
{
    let ghost gp = p;
    match p {
        StyleProp::Static(v) => {
            let (v2, e) = gen_value(st, v, order, filename);
            (StyleProp::Static(v2), e)
        },
        StyleProp::StaticArray(ps) => {
            proof {
                assert(decreases_to!(gp => gp->StaticArray_0));
                assert(decreases_to!(gp->StaticArray_0 => gp->StaticArray_0@));
            }
            let (ps2, es) = gen_vec(st, ps, order, filename);
            let merged = merge_expression_for_class_name(es);
            let r = StyleProp::StaticArray(ps2);
            (r, merged)
        },
        StyleProp::Conditional { condition, consequent, alternate } => {
            let (cons2, ce) = match consequent {
                Some(b) => {
                    proof {
                        assert(decreases_to!(gp => gp->consequent));
                    }
                    let (p1, e) = gen_class_name(st, *b, order, filename);
                    (Some(Box::new(p1)), e)
                },
                None => (None, None),
            };
            let (alt2, ae) = match alternate {
                Some(b) => {
                    proof {
                        assert(decreases_to!(gp => gp->alternate));
                    }
                    let (p2, e) = gen_class_name(st, *b, order, filename);
                    (Some(Box::new(p2)), e)
                },
                None => (None, None),
            };
            let c1 = match ce {
                Some(x) => x,
                None => Expr::Str(String::new()),
            };
            let a1 = match ae {
                Some(x) => x,
                None => Expr::Str(String::new()),
            };
            let e = if same_expr(&c1, &a1) {
                c1
            } else {
                Expr::Cond(Box::new(copy_expr(&condition)), Box::new(c1), Box::new(a1))
            };
            let r = StyleProp::Conditional { condition, consequent: cons2, alternate: alt2 };
            (r, Some(e))
        },
        StyleProp::Enum { condition, map } => {
            proof {
                assert(decreases_to!(gp => gp->Enum_map));
                assert(decreases_to!(gp->Enum_map => gp->Enum_map@));
            }
            let ghost gmap = map@;
            proof {
                match gp@ {
                    PropView::Enum(_, m) => {
                        assert(m =~= enum_entries_view(gmap));
                    },
                    _ => {},
                }
            }
            let (map2, props) = gen_enum_vec(st, map, order, filename);
            let ghost gprops = props@;
            let ghost gmap2 = map2@;
            let member = Expr::Member(props, Box::new(copy_expr(&condition)));
            proof {
                match member@ {
                    ExprView::Member(a, _) => {
                        assert(a =~= keyed_exprs_view(gprops));
                    },
                    _ => {},
                }
            }
            let e = convert_class_name(member);
            let r = StyleProp::Enum { condition, map: map2 };
            proof {
                match r@ {
                    PropView::Enum(_, m) => {
                        assert(m =~= enum_entries_view(gmap2));
                    },
                    _ => {},
                }
            }
            (r, Some(e))
        },
        StyleProp::Expression { styles, expression } => {
            let e = copy_expr(&expression);
            let r = StyleProp::Expression { styles, expression };
            (r, Some(e))
        },
        StyleProp::MemberExpression { map, expression } => {
            proof {
                assert(decreases_to!(gp => gp->MemberExpression_map));
                assert(decreases_to!(gp->MemberExpression_map => gp->MemberExpression_map@));
            }
            let ghost gmap = map@;
            proof {
                match gp@ {
                    PropView::MemberExpression(m, _) => {
                        assert(m =~= member_entries_view(gmap));
                    },
                    _ => {},
                }
            }
            let (map2, props) = gen_member_vec(st, map, order, filename);
            let ghost gprops = props@;
            let ghost gmap2 = map2@;
            let is_ident = match &expression {
                Expr::Ident(_) => true,
                _ => false,
            };
            let exp = Expr::Member(props, Box::new(copy_expr(&expression)));
            proof {
                match exp@ {
                    ExprView::Member(a, _) => {
                        assert(a =~= keyed_exprs_view(gprops));
                    },
                    _ => {},
                }
            }
            let e = if is_ident {
                convert_class_name(exp)
            } else {
                exp
            };
            let r = StyleProp::MemberExpression { map: map2, expression };
            proof {
                match r@ {
                    PropView::MemberExpression(m, _) => {
                        assert(m =~= member_entries_view(gmap2));
                    },
                    _ => {},
                }
            }
            (r, Some(e))
        },
    }
}

/// Class names of the props of an element, walked from the last to the
/// first: the state after, the expressions in the order they were made, and
/// the props.
pub open spec fn gen_rev(
    n: NamingState,
    ps: Seq<PropView>,
    order: Option<u8>,
    f: Option<Seq<char>>,
) -> (NamingState, Seq<ExprView>, Seq<PropView>)
    decreases ps.len(),
{
    if ps.len() == 0 {
        (n, Seq::empty(), Seq::empty())
    } else {
        let (n1, e, p1) = gen_prop(n, ps.last(), order, f);
        let (n2, es, ps2) = gen_rev(n1, ps.drop_last(), order, f);
        (n2, opt_seq_expr(e) + es, ps2.push(p1))
    }
}

fn gen_rev_vec(st: &mut CssState, ps: Vec<StyleProp>, order: Option<u8>, filename: Option<&str>) -> (r: (
    Vec<StyleProp>,
    Vec<Expr>,
))
    requires
        old(st).wf(),
    ensures
        final(st).wf(),
        same_settings(*final(st), *old(st)),
        gen_rev(naming(*old(st)), props_view(ps@), order, opt_seq(filename)) == (
            naming(*final(st)),
            exprs_view(r.1@),
            props_view(r.0@),
        ),
    decreases ps@.len(),
{
    let ghost gps = ps@;
    let mut ps = ps;
    match ps.pop() {
        None => {
            assert(props_view(gps) =~= Seq::<PropView>::empty());
            (Vec::new(), Vec::new())
        },
        Some(last) => {
            proof {
                assert(props_view(gps).drop_last() =~= props_view(ps@));
                assert(props_view(gps).last() == prop_view(last));
            }
            let (p1, e) = gen_class_name(st, last, order, filename);
            let (mut ps2, mut rest) = gen_rev_vec(st, ps, order, filename);
            let ghost grest = exprs_view(rest@);
            let mut es: Vec<Expr> = Vec::new();
            match e {
                Some(x) => es.push(x),
                None => {},
            }
            let ghost first = exprs_view(es@);
            while rest.len() > 0
                invariant
                    exprs_view(es@) + exprs_view(rest@) == first + grest,
                decreases rest@.len(),
            {
                let ghost before_es = es@;
                let ghost before_rest = rest@;
                let x = rest.remove(0);
                es.push(x);
                assert(exprs_view(es@) =~= exprs_view(before_es).push(x@));
                assert(exprs_view(before_rest) =~= seq![x@] + exprs_view(rest@));
                assert(exprs_view(es@) + exprs_view(rest@) =~= exprs_view(before_es) + exprs_view(before_rest));
            }
            assert(exprs_view(rest@) =~= Seq::<ExprView>::empty());
            assert(exprs_view(es@) =~= first + grest);
            let ghost old_ps2 = ps2@;
            ps2.push(p1);
            assert(props_view(ps2@) =~= props_view(old_ps2).push(p1@));
            (ps2, es)
        },
    }
}

/// The `className` expression of an element's style props: each prop's
/// class name, the props walked from the last to the first (so their styles
/// are named in that order), merged (see [`merged_class_names`]); the props
/// keep the style orders they were given.
pub fn gen_class_names(
    st: &mut CssState,
    style_props: &mut Vec<StyleProp>,
    style_order: Option<u8>,
    filename: Option<&str>,
) -> (r: Option<Expr>)
    requires
        old(st).wf(),
    ensures
        final(st).wf(),
        same_settings(*final(st), *old(st)),
        ({
            let g = gen_rev(naming(*old(st)), props_view(old(style_props)@), style_order, opt_seq(filename));
            &&& naming(*final(st)) == g.0
            &&& opt_expr_view(r) == merged_class_names(g.1)
            &&& props_view(final(style_props)@) == g.2
        }),
{
    let mut ps: Vec<StyleProp> = Vec::new();
    std::mem::swap(&mut ps, style_props);
    let (ps2, es) = gen_rev_vec(st, ps, style_order, filename);
    *style_props = ps2;
    merge_expression_for_class_name(es)
}

/// The styles a prop holds, in order: its own style, those of both branches
/// of a conditional, of every prop of a list and of every keyed prop.
pub open spec fn prop_styles(p: PropView) -> Seq<StyleValueView>
    decreases p, 1nat,
{
    match p {
        PropView::Static(v) => seq![v],
        PropView::StaticArray(ps) => list_styles(ps),
        PropView::Conditional(_, c, a) => {
            let first = match c {
                Some(b) => prop_styles(*b),
                None => Seq::empty(),
            };
            let second = match a {
                Some(b) => prop_styles(*b),
                None => Seq::empty(),
            };
            first + second
        },
        PropView::Enum(_, m) => enum_styles(m),
        PropView::Expression(styles, _) => styles,
        PropView::MemberExpression(m, _) => member_styles(m),
    }
}

/// The styles of a list of props, in order.
pub open spec fn list_styles(ps: Seq<PropView>) -> Seq<StyleValueView>
    decreases ps, 0nat,
{
    if ps.len() == 0 {
        Seq::empty()
    } else {
        list_styles(ps.subrange(0, ps.len() - 1)) + prop_styles(ps[ps.len() - 1])
    }
}

/// The styles of the keyed lists of an enum prop, in order.
pub open spec fn enum_styles(m: Seq<(Seq<char>, Seq<PropView>)>) -> Seq<StyleValueView>
    decreases m, 0nat,
{
    if m.len() == 0 {
        Seq::empty()
    } else {
        enum_styles(m.subrange(0, m.len() - 1)) + list_styles(m[m.len() - 1].1)
    }
}

/// The styles of the keyed props of a member prop, in order.
pub open spec fn member_styles(m: Seq<(Seq<char>, PropView)>) -> Seq<StyleValueView>
    decreases m, 0nat,
{
    if m.len() == 0 {
        Seq::empty()
    } else {
        member_styles(m.subrange(0, m.len() - 1)) + prop_styles(m[m.len() - 1].1)
    }
}

fn append_styles(out: &mut Vec<ExtractStyleValue>, more: Vec<ExtractStyleValue>)
    ensures
        values_view(final(out)@) == values_view(old(out)@) + values_view(more@),
{
    let mut more = more;
    let ghost start = values_view(out@);
    let ghost all = values_view(more@);
    let mut k: usize = 0;
    let n = more.len();
    while k < n
        invariant
            k <= n == all.len(),
            more@.len() == n - k,
            values_view(more@) == all.skip(k as int),
            values_view(out@) == start + all.take(k as int),
        decreases n - k,
    {
        let ghost before = out@;
        let ghost rest = more@;
        let x = more.remove(0);
        out.push(x);
        assert(values_view(out@) == values_view(before).push(x@));
        assert(values_view(more@) == values_view(rest).drop_first());
        assert(all.take(k + 1) == all.take(k as int).push(all[k as int]));
        assert(all[k as int] == x@) by {
            assert(values_view(rest)[0] == x@);
        }
        k = k + 1;
    }
    assert(all.take(n as int) == all);
}

fn list_styles_exec(ps: &Vec<StyleProp>) -> (r: Vec<ExtractStyleValue>)
    ensures
        values_view(r@) == list_styles(props_view(ps@)),
    decreases ps@,
{
    let mut out: Vec<ExtractStyleValue> = Vec::new();
    let mut i: usize = 0;
    assert(props_view(ps@).subrange(0, 0) =~= Seq::<PropView>::empty());
    while i < ps.len()
        invariant
            i <= ps@.len(),
            values_view(out@) == list_styles(props_view(ps@).subrange(0, i as int)),
        decreases ps@.len() - i,
    {
        proof {
            assert(decreases_to!(ps@ => ps@[i as int]));
            let t = props_view(ps@).subrange(0, i + 1);
            assert(t.subrange(0, i as int) =~= props_view(ps@).subrange(0, i as int));
            assert(t[i as int] == prop_view(ps@[i as int]));
        }
        let more = ps[i].extract();
        append_styles(&mut out, more);
        i = i + 1;
    }
    assert(props_view(ps@).subrange(0, i as int) =~= props_view(ps@));
    out
}

impl StyleProp {
    /// The styles the prop holds, in order (see [`prop_styles`]).
    pub fn extract(&self) -> (r: Vec<ExtractStyleValue>)
        ensures
            values_view(r@) == prop_styles(self@),
        decreases self,
    {
        match self {
            StyleProp::Static(v) => {
                let mut out: Vec<ExtractStyleValue> = Vec::new();
                out.push(v.copy());
                assert(values_view(out@) =~= seq![v@]);
                out
            },
            StyleProp::StaticArray(ps) => {
                proof {
                    assert(decreases_to!(*self => (*self)->StaticArray_0));
                    assert(decreases_to!((*self)->StaticArray_0 => (*self)->StaticArray_0@));
                }
                list_styles_exec(ps)
            },
            StyleProp::Conditional { consequent, alternate, .. } => {
                let mut out: Vec<ExtractStyleValue> = match consequent {
                    Some(b) => b.extract(),
                    None => Vec::new(),
                };
                let more: Vec<ExtractStyleValue> = match alternate {
                    Some(b) => b.extract(),
                    None => Vec::new(),
                };
                append_styles(&mut out, more);
                out
            },
            StyleProp::Enum { map, .. } => {
                let mut out: Vec<ExtractStyleValue> = Vec::new();
                let mut i: usize = 0;
                assert(enum_entries_view(map@).subrange(0, 0) =~= Seq::<(Seq<char>, Seq<PropView>)>::empty());
                while i < map.len()
                    invariant
                        *self == (StyleProp::Enum { condition: self->Enum_condition, map: *map }),
                        i <= map@.len(),
                        values_view(out@) == enum_styles(enum_entries_view(map@).subrange(0, i as int)),
                    decreases map@.len() - i,
                {
                    proof {
                        assert(decreases_to!(*self => (*self)->Enum_map));
                        assert(decreases_to!(*map => map@));
                        assert(decreases_to!(map@ => map@[i as int]));
                        assert(decreases_to!(map@[i as int] => map@[i as int].1));
                        let t = enum_entries_view(map@).subrange(0, i + 1);
                        assert(t.subrange(0, i as int) =~= enum_entries_view(map@).subrange(0, i as int));
                        assert(t[i as int].1 == props_view(map@[i as int].1@));
                    }
                    let more = list_styles_exec(&map[i].1);
                    append_styles(&mut out, more);
                    i = i + 1;
                }
                proof {
                    assert(enum_entries_view(map@).subrange(0, i as int) =~= enum_entries_view(map@));
                    match self@ {
                        PropView::Enum(_, m) => {
                            assert(m =~= enum_entries_view(map@));
                        },
                        _ => {},
                    }
                }
                out
            },
            StyleProp::Expression { styles, .. } => {
                let mut out: Vec<ExtractStyleValue> = Vec::new();
                let mut i: usize = 0;
                while i < styles.len()
                    invariant
                        i <= styles@.len(),
                        values_view(out@) == values_view(styles@).take(i as int),
                    decreases styles@.len() - i,
                {
                    let ghost before = out@;
                    out.push(styles[i].copy());
                    assert(values_view(out@) == values_view(before).push(styles@[i as int]@));
                    assert(values_view(styles@).take(i + 1) == values_view(styles@).take(i as int).push(
                        styles@[i as int]@,
                    ));
                    i = i + 1;
                }
                assert(values_view(styles@).take(i as int) == values_view(styles@));
                out
            },
            StyleProp::MemberExpression { map, .. } => {
                let mut out: Vec<ExtractStyleValue> = Vec::new();
                let mut i: usize = 0;
                assert(member_entries_view(map@).subrange(0, 0) =~= Seq::<(Seq<char>, PropView)>::empty());
                while i < map.len()
                    invariant
                        *self == (StyleProp::MemberExpression { map: *map, expression: self->MemberExpression_expression }),
                        i <= map@.len(),
                        values_view(out@) == member_styles(member_entries_view(map@).subrange(0, i as int)),
                    decreases map@.len() - i,
                {
                    proof {
                        assert(decreases_to!(*self => (*self)->MemberExpression_map));
                        assert(decreases_to!(*map => map@));
                        assert(decreases_to!(map@ => map@[i as int]));
                        assert(decreases_to!(map@[i as int] => map@[i as int].1));
                        let t = member_entries_view(map@).subrange(0, i + 1);
                        assert(t.subrange(0, i as int) =~= member_entries_view(map@).subrange(0, i as int));
                        assert(t[i as int].1 == prop_view(*map@[i as int].1));
                    }
                    let more = map[i].1.extract();
                    append_styles(&mut out, more);
                    i = i + 1;
                }
                proof {
                    assert(member_entries_view(map@).subrange(0, i as int) =~= member_entries_view(map@));
                    match self@ {
                        PropView::MemberExpression(m, _) => {
                            assert(m =~= member_entries_view(map@));
                        },
                        _ => {},
                    }
                }
                out
            },
        }
    }
}

} // verus!
