//! The `style` prop of an element: the CSS variables its dynamic styles set,
//! each under its variable name, with the expression that gives its value.
use vstd::prelude::*;
use crate::class_expr::{copy_expr, Expr, ExprView};
use crate::extract_style::{class_selector, ExtractStyleValue, StyleProperty, StyleValueView};
use crate::gen_class_name::{
    keyed_exprs_view, member_entries_view, naming, prop_styles, prop_view, props_view, value_naming_after,
    NamingState, PropView, StyleProp,
};
use crate::naming::{class_map_in, opt_seq, same_settings, variable_name_of};
use crate::selector_order::{text_order, text_order_exec};
use crate::state::CssState;
use crate::text::{chars_of, str_eq};

verus! {

/// A property of the `style` object: its key and its value.
pub type PropEntry = (Seq<char>, ExprView);

/// Key `a` sorts before key `b`.
pub open spec fn key_less(a: Seq<char>, b: Seq<char>) -> bool {
    text_order(a, b) < 0
}

/// `x` put into `s` after every entry whose key is not less than its own.
pub open spec fn insert_desc(s: Seq<PropEntry>, x: PropEntry) -> Seq<PropEntry>
    decreases s.len(),
{
    if s.len() == 0 {
        seq![x]
    } else if key_less(s.last().0, x.0) {
        insert_desc(s.drop_last(), x).push(s.last())
    } else {
        s.push(x)
    }
}

/// The entries sorted by key, greatest first; entries with equal keys keep
/// their order (a stable sort).
pub open spec fn sort_desc(s: Seq<PropEntry>) -> Seq<PropEntry>
    decreases s.len(),
{
    if s.len() == 0 {
        s
    } else {
        insert_desc(sort_desc(s.drop_last()), s.last())
    }
}

/// The entries in reverse order.
pub open spec fn rev_entries(s: Seq<PropEntry>) -> Seq<PropEntry>
    decreases s.len(),
{
    if s.len() == 0 {
        s
    } else {
        seq![s.last()] + rev_entries(s.drop_last())
    }
}

/// The name of the CSS variable of a dynamic style, given the naming state
/// before it is named.
pub open spec fn variable_of(n: NamingState, d: crate::extract_style::DynamicStyleView, f: Option<Seq<char>>) -> Seq<
    char,
> {
    let sel = class_selector(d.selector);
    variable_name_of(
        n.debug,
        class_map_in(n.debug, n.cm, n.pairs, d.property, d.level, None, sel, d.style_order, f),
        d.property,
        d.level,
        sel,
    )
}

/// The entry a style gives: a dynamic style sets its variable to its
/// expression; other styles give none.
pub open spec fn value_entries(n: NamingState, v: StyleValueView, f: Option<Seq<char>>) -> Seq<PropEntry> {
    match v {
        StyleValueView::Dynamic(d) => seq![(variable_of(n, d, f), ExprView::Ident(d.identifier))],
        _ => Seq::empty(),
    }
}

/// `undefined`.
pub open spec fn undefined_view() -> ExprView {
    ExprView::Ident(seq!['u', 'n', 'd', 'e', 'f', 'i', 'n', 'e', 'd'])
}

/// Each entry's value made conditional: `c ? value : undefined` when the
/// value is the consequent, `c ? undefined : value` otherwise.
pub open spec fn one_sided(s: Seq<PropEntry>, c: ExprView, when_true: bool) -> Seq<PropEntry> {
    Seq::new(
        s.len(),
        |i: int|
            (
                s[i].0,
                if when_true {
                    ExprView::Cond(Box::new(c), Box::new(s[i].1), Box::new(undefined_view()))
                } else {
                    ExprView::Cond(Box::new(c), Box::new(undefined_view()), Box::new(s[i].1))
                },
            ),
    )
}

/// The index of the first entry with key `k`, or -1.
pub open spec fn key_index(s: Seq<PropEntry>, k: Seq<char>) -> int
    decreases s.len(),
{
    if s.len() == 0 {
        -1
    } else {
        let j = key_index(s.drop_last(), k);
        if j >= 0 {
            j
        } else if s.last().0 == k {
            s.len() - 1
        } else {
            -1
        }
    }
}

/// The consequent's entries, each one whose key the alternate also has made
/// `c ? consequent : alternate` (with the alternate's first entry of that key).
pub open spec fn both_sided(cc: Seq<PropEntry>, aa: Seq<PropEntry>, c: ExprView) -> Seq<PropEntry> {
    Seq::new(
        cc.len(),
        |i: int|
            if key_index(aa, cc[i].0) >= 0 {
                (cc[i].0, ExprView::Cond(Box::new(c), Box::new(cc[i].1), Box::new(aa[key_index(aa, cc[i].0)].1)))
            } else {
                cc[i]
            },
    )
}

/// The alternate's entries whose key the consequent does not have.
pub open spec fn alternate_only(cc: Seq<PropEntry>, aa: Seq<PropEntry>) -> Seq<PropEntry>
    decreases aa.len(),
{
    if aa.len() == 0 {
        Seq::empty()
    } else {
        let r = alternate_only(cc, aa.drop_last());
        if key_index(cc, aa.last().0) >= 0 {
            r
        } else {
            r.push(aa.last())
        }
    }
}

/// Variable names, each with the (key, expression) pairs that set it.
pub type Groups = Seq<(Seq<char>, Seq<(Seq<char>, Seq<char>)>)>;

/// The index of the group named `name`, or -1.
pub open spec fn group_index(g: Groups, name: Seq<char>) -> int
    decreases g.len(),
{
    if g.len() == 0 {
        -1
    } else {
        let j = group_index(g.drop_last(), name);
        if j >= 0 {
            j
        } else if g.last().0 == name {
            g.len() - 1
        } else {
            -1
        }
    }
}

/// `item` added to the group named `name` (a new group at the end when
/// there is none).
pub open spec fn group_add(g: Groups, name: Seq<char>, item: (Seq<char>, Seq<char>)) -> Groups {
    let j = group_index(g, name);
    if j >= 0 {
        g.update(j, (name, g[j].1.push(item)))
    } else {
        g.push((name, seq![item]))
    }
}

/// The styles of one keyed prop named in order, each variable recorded
/// under its name with the key and the expression.
pub open spec fn style_groups(
    n: NamingState,
    key: Seq<char>,
    styles: Seq<StyleValueView>,
    g: Groups,
    f: Option<Seq<char>>,
) -> (NamingState, Groups)
    decreases styles.len(),
{
    if styles.len() == 0 {
        (n, g)
    } else {
        let (n1, g1) = style_groups(n, key, styles.drop_last(), g, f);
        let v = styles.last();
        let g2 = match v {
            StyleValueView::Dynamic(d) => group_add(g1, variable_of(n1, d, f), (key, d.identifier)),
            _ => g1,
        };
        (value_naming_after(n1, v, f), g2)
    }
}

/// The keyed props of a member prop, walked in order.
pub open spec fn member_groups(n: NamingState, m: Seq<(Seq<char>, PropView)>, f: Option<Seq<char>>) -> (
    NamingState,
    Groups,
)
    decreases m.len(),
{
    if m.len() == 0 {
        (n, Seq::empty())
    } else {
        let (n1, g1) = member_groups(n, m.drop_last(), f);
        style_groups(n1, m.last().0, prop_styles(m.last().1), g1, f)
    }
}

/// The value of a variable: the one expression when one key sets it, else
/// `({key: expression, ...})[e]`.
pub open spec fn group_value(items: Seq<(Seq<char>, Seq<char>)>, e: ExprView) -> ExprView {
    if items.len() == 1 {
        ExprView::Ident(items[0].1)
    } else {
        ExprView::IdentMember(Seq::new(items.len(), |i: int| (items[i].0, ExprView::Ident(items[i].1))), Box::new(e))
    }
}

/// One entry per variable.
pub open spec fn group_entries(g: Groups, e: ExprView) -> Seq<PropEntry> {
    Seq::new(g.len(), |i: int| (g[i].0, group_value(g[i].1, e)))
}

/// The `style` entries of one prop, given the naming state before: a dynamic
/// style sets its variable; a list gives the entries of its props, walked
/// from the last (each prop's entries reversed); a conditional with one
/// branch makes each entry of that branch conditional, with both branches
/// the entries sharing a key are joined into one conditional; a member prop
/// gives one entry per variable its keyed props set. Every list of entries
/// is then sorted by key, greatest first.
pub open spec fn style_entries(n: NamingState, p: PropView, f: Option<Seq<char>>) -> (NamingState, Seq<PropEntry>)
    decreases p, 1nat,
{
    match p {
        PropView::Static(v) => (value_naming_after(n, v, f), sort_desc(value_entries(n, v, f))),
        PropView::StaticArray(ps) => {
            let (n2, out) = rev_entries_of(n, ps, f);
            (n2, sort_desc(out))
        },
        PropView::Conditional(c, cons, alt) => match (cons, alt) {
            (None, Some(a)) => {
                let (n1, out) = style_entries(n, *a, f);
                (n1, sort_desc(one_sided(out, c, false)))
            },
            (Some(x), None) => {
                let (n1, out) = style_entries(n, *x, f);
                (n1, sort_desc(one_sided(out, c, true)))
            },
            (Some(x), Some(a)) => {
                let (n1, cc) = style_entries(n, *x, f);
                let (n2, aa) = style_entries(n1, *a, f);
                (n2, sort_desc(both_sided(cc, aa, c) + alternate_only(cc, aa)))
            },
            (None, None) => (n, Seq::empty()),
        },
        PropView::MemberExpression(m, e) => {
            let (n2, g) = member_groups(n, m, f);
            (n2, sort_desc(group_entries(g, e)))
        },
        _ => (n, Seq::empty()),
    }
}

/// The entries of a list of props, walked from the last to the first, each
/// prop's entries reversed.
pub open spec fn rev_entries_of(n: NamingState, ps: Seq<PropView>, f: Option<Seq<char>>) -> (
    NamingState,
    Seq<PropEntry>,
)
    decreases ps, 0nat,
{
    if ps.len() == 0 {
        (n, Seq::empty())
    } else {
        let (n1, out) = style_entries(n, ps[ps.len() - 1], f);
        let (n2, rest) = rev_entries_of(n1, ps.subrange(0, ps.len() - 1), f);
        (n2, rev_entries(out) + rest)
    }
}

proof fn lemma_insert_desc_at(s: Seq<PropEntry>, x: PropEntry, j: int)
    requires
        0 <= j <= s.len(),
        forall|k: int| j <= k < s.len() ==> key_less(#[trigger] s[k].0, x.0),
        j == 0 || !key_less(s[j - 1].0, x.0),
    ensures
        insert_desc(s, x) == s.take(j).push(x) + s.skip(j),
    decreases s.len(),
{
    if s.len() == j {
        assert(s.skip(j) =~= Seq::<PropEntry>::empty());
        assert(s.take(j) =~= s);
        if s.len() > 0 {
            assert(s.last() == s[j - 1]);
        }
    } else {
        let t = s.drop_last();
        assert(key_less(s[s.len() - 1].0, x.0));
        assert forall|k: int| j <= k < t.len() implies key_less(#[trigger] t[k].0, x.0) by {
            assert(t[k] == s[k]);
        }
        if j > 0 {
            assert(t[j - 1] == s[j - 1]);
        }
        lemma_insert_desc_at(t, x, j);
        assert(t.take(j) =~= s.take(j));
        assert(t.skip(j).push(s.last()) =~= s.skip(j));
        assert(insert_desc(s, x) == insert_desc(t, x).push(s.last()));
        assert(t.take(j).push(x) + t.skip(j).push(s.last()) =~= (t.take(j).push(x) + t.skip(j)).push(s.last()));
    }
}

/// `x` inserted into `out` as [`insert_desc`] does.
fn insert_desc_exec(out: &mut Vec<(String, Expr)>, x: (String, Expr))
    ensures
        keyed_exprs_view(final(out)@) == insert_desc(keyed_exprs_view(old(out)@), (x.0@, x.1@)),
{
    let ghost s = keyed_exprs_view(out@);
    let xk = chars_of(x.0.as_str());
    let mut j = out.len();
    while j > 0
        invariant
            j <= out@.len(),
            s == keyed_exprs_view(out@),
            xk@ == x.0@,
            forall|k: int| j <= k < s.len() ==> key_less(#[trigger] s[k].0, x.0@),
        ensures
            j == 0 || !key_less(s[j - 1].0, x.0@),
        decreases j,
    {
        let kk = chars_of(out[j - 1].0.as_str());
        assert(s[j - 1].0 == kk@);
        if text_order_exec(&kk, &xk) >= 0 {
            break;
        }
        j = j - 1;
    }
    proof {
        lemma_insert_desc_at(s, (x.0@, x.1@), j as int);
    }
    let ghost before = out@;
    out.insert(j, x);
    assert(keyed_exprs_view(out@) =~= s.take(j as int).push((x.0@, x.1@)) + s.skip(j as int)) by {
        assert(out@ == before.insert(j as int, x));
    }
}

/// The entries sorted by key, greatest first, stably (see [`sort_desc`]).
fn sort_desc_exec(v: Vec<(String, Expr)>) -> (r: Vec<(String, Expr)>)
    ensures
        keyed_exprs_view(r@) == sort_desc(keyed_exprs_view(v@)),
{
    let ghost all = keyed_exprs_view(v@);
    let mut rest = v;
    let mut out: Vec<(String, Expr)> = Vec::new();
    let n = rest.len();
    let mut k: usize = 0;
    assert(all.take(0) =~= Seq::<PropEntry>::empty());
    while k < n
        invariant
            k <= n == all.len(),
            rest@.len() == n - k,
            keyed_exprs_view(rest@) == all.skip(k as int),
            keyed_exprs_view(out@) == sort_desc(all.take(k as int)),
        decreases n - k,
    {
        let ghost r0 = rest@;
        let x = rest.remove(0);
        assert(keyed_exprs_view(r0)[0] == (x.0@, x.1@));
        assert(all[k as int] == (x.0@, x.1@));
        assert forall|i: int| 0 <= i < rest@.len() implies keyed_exprs_view(rest@)[i] == all.skip(k + 1)[i] by {
            assert(rest@[i] == r0[i + 1]);
            assert(keyed_exprs_view(r0)[i + 1] == all.skip(k as int)[i + 1]);
        }
        assert(keyed_exprs_view(rest@) =~= all.skip(k + 1));
        assert(all.take(k + 1).drop_last() =~= all.take(k as int));
        insert_desc_exec(&mut out, x);
        k = k + 1;
    }
    assert(all.take(n as int) =~= all);
    out
}

/// The entries in reverse order.
fn rev_entries_exec(v: Vec<(String, Expr)>) -> (r: Vec<(String, Expr)>)
    ensures
        keyed_exprs_view(r@) == rev_entries(keyed_exprs_view(v@)),
{
    let ghost all = keyed_exprs_view(v@);
    let mut v = v;
    let mut out: Vec<(String, Expr)> = Vec::new();
    while v.len() > 0
        invariant
            keyed_exprs_view(out@) + rev_entries(keyed_exprs_view(v@)) == rev_entries(all),
        decreases v@.len(),
    {
        let ghost v0 = v@;
        let ghost o0 = out@;
        let y = v.pop().unwrap();
        assert(keyed_exprs_view(v0).drop_last() =~= keyed_exprs_view(v@));
        assert(keyed_exprs_view(v0).last() == (y.0@, y.1@));
        out.push(y);
        assert(keyed_exprs_view(out@) =~= keyed_exprs_view(o0).push((y.0@, y.1@)));
        assert(keyed_exprs_view(out@) + rev_entries(keyed_exprs_view(v@)) =~= keyed_exprs_view(o0) + rev_entries(
            keyed_exprs_view(v0),
        ));
    }
    assert(keyed_exprs_view(v@) =~= Seq::<PropEntry>::empty());
    assert(keyed_exprs_view(out@) + Seq::<PropEntry>::empty() =~= keyed_exprs_view(out@));
    out
}

/// A style named against `st`: a dynamic style gives its variable name and
/// its expression; other styles give nothing.
fn name_style(st: &mut CssState, v: &ExtractStyleValue, filename: Option<&str>) -> (r: Option<(String, String)>)
    requires
        old(st).wf(),
    ensures
        final(st).wf(),
        same_settings(*final(st), *old(st)),
        naming(*final(st)) == value_naming_after(naming(*old(st)), v@, opt_seq(filename)),
        match v@ {
            StyleValueView::Dynamic(d) => r matches Some(x) && x.0@ == variable_of(naming(*old(st)), d, opt_seq(filename))
                && x.1@ == d.identifier,
            _ => r is None,
        },
{
    match v.extract(st, filename) {
        Some(StyleProperty::Variable { variable_name, identifier, .. }) => Some((variable_name, identifier)),
        _ => None,
    }
}

fn ident(name: String) -> (r: Expr)
    ensures
        r@ == ExprView::Ident(name@),
{
    Expr::Ident(name)
}

fn undefined() -> (r: Expr)
    ensures
        r@ == undefined_view(),
{
    let mut s = String::new();
    crate::text::push_str(&mut s, "undefined");
    proof {
        reveal_strlit("undefined");
    }
    assert(s@ =~= seq!['u', 'n', 'd', 'e', 'f', 'i', 'n', 'e', 'd']);
    Expr::Ident(s)
}

/// The entries made conditional (see [`one_sided`]).
fn one_sided_exec(v: Vec<(String, Expr)>, c: &Expr, when_true: bool) -> (r: Vec<(String, Expr)>)
    ensures
        keyed_exprs_view(r@) == one_sided(keyed_exprs_view(v@), c@, when_true),
{
    let ghost all = keyed_exprs_view(v@);
    let mut rest = v;
    let mut out: Vec<(String, Expr)> = Vec::new();
    let n = rest.len();
    let mut k: usize = 0;
    while k < n
        invariant
            k <= n == all.len(),
            rest@.len() == n - k,
            forall|i: int| 0 <= i < rest@.len() ==> keyed_exprs_view(rest@)[i] == all[i + k],
            out@.len() == k,
            forall|i: int| 0 <= i < k ==> keyed_exprs_view(out@)[i] == one_sided(all, c@, when_true)[i],
        decreases n - k,
    {
        let ghost r0 = rest@;
        let (key, value) = rest.remove(0);
        assert(keyed_exprs_view(r0)[0] == all[k as int]);
        assert forall|i: int| 0 <= i < rest@.len() implies keyed_exprs_view(rest@)[i] == all[i + k + 1] by {
            assert(rest@[i] == r0[i + 1]);
            assert(keyed_exprs_view(r0)[i + 1] == all[i + 1 + k]);
        }
        let e = if when_true {
            Expr::Cond(Box::new(copy_expr(c)), Box::new(value), Box::new(undefined()))
        } else {
            Expr::Cond(Box::new(copy_expr(c)), Box::new(undefined()), Box::new(value))
        };
        let ghost o0 = out@;
        out.push((key, e));
        assert forall|i: int| 0 <= i < k + 1 implies keyed_exprs_view(out@)[i] == one_sided(all, c@, when_true)[i] by {
            if i < k {
                assert(out@[i] == o0[i]);
                assert(keyed_exprs_view(o0)[i] == one_sided(all, c@, when_true)[i]);
            }
        }
        k = k + 1;
    }
    assert(keyed_exprs_view(out@) =~= one_sided(all, c@, when_true));
    out
}

proof fn lemma_key_index(s: Seq<PropEntry>, k: Seq<char>)
    ensures
        -1 <= key_index(s, k) < s.len(),
        key_index(s, k) >= 0 ==> s[key_index(s, k)].0 == k && forall|i: int|
            0 <= i < key_index(s, k) ==> #[trigger] s[i].0 != k,
        key_index(s, k) < 0 ==> forall|i: int| 0 <= i < s.len() ==> #[trigger] s[i].0 != k,
    decreases s.len(),
{
    if s.len() > 0 {
        let t = s.drop_last();
        lemma_key_index(t, k);
        assert forall|i: int| 0 <= i < t.len() implies t[i] == s[i] by {}
    }
}

/// [`key_index`] of `key` in `s`.
fn key_index_exec(s: &Vec<(String, Expr)>, key: &str) -> (r: Option<usize>)
    ensures
        match r {
            Some(j) => key_index(keyed_exprs_view(s@), key@) == j,
            None => key_index(keyed_exprs_view(s@), key@) < 0,
        },
{
    let ghost sv = keyed_exprs_view(s@);
    proof {
        lemma_key_index(sv, key@);
    }
    let mut i: usize = 0;
    while i < s.len()
        invariant
            i <= s@.len() == sv.len(),
            sv == keyed_exprs_view(s@),
            forall|j: int| 0 <= j < i ==> #[trigger] sv[j].0 != key@,
        decreases s@.len() - i,
    {
        if str_eq(s[i].0.as_str(), key) {
            assert(sv[i as int].0 == key@);
            proof {
                lemma_key_index(sv, key@);
                let j0 = key_index(sv, key@);
                if j0 < 0 {
                    assert(sv[i as int].0 != key@);
                } else if j0 < i {
                    assert(sv[j0].0 != key@);
                } else if j0 > i {
                    assert(sv[i as int].0 != key@);
                }
            }
            return Some(i);
        }
        i = i + 1;
    }
    None
}

/// The consequent's entries joined with the alternate's (see
/// [`both_sided`]).
fn both_sided_exec(cc: &Vec<(String, Expr)>, aa: &Vec<(String, Expr)>, c: &Expr) -> (r: Vec<(String, Expr)>)
    ensures
        keyed_exprs_view(r@) == both_sided(keyed_exprs_view(cc@), keyed_exprs_view(aa@), c@),
{
    let ghost cv = keyed_exprs_view(cc@);
    let ghost av = keyed_exprs_view(aa@);
    let mut out: Vec<(String, Expr)> = Vec::new();
    let mut i: usize = 0;
    while i < cc.len()
        invariant
            i <= cc@.len() == cv.len(),
            cv == keyed_exprs_view(cc@),
            av == keyed_exprs_view(aa@),
            out@.len() == i,
            forall|j: int| 0 <= j < i ==> keyed_exprs_view(out@)[j] == both_sided(cv, av, c@)[j],
        decreases cc@.len() - i,
    {
        let key = cc[i].0.as_str().to_string();
        let e = match key_index_exec(aa, cc[i].0.as_str()) {
            Some(j) => {
                proof {
                    lemma_key_index(av, cv[i as int].0);
                }
                Expr::Cond(Box::new(copy_expr(c)), Box::new(copy_expr(&cc[i].1)), Box::new(copy_expr(&aa[j].1)))
            },
            None => copy_expr(&cc[i].1),
        };
        let ghost o0 = out@;
        out.push((key, e));
        assert forall|j: int| 0 <= j < i + 1 implies keyed_exprs_view(out@)[j] == both_sided(cv, av, c@)[j] by {
            if j < i {
                assert(out@[j] == o0[j]);
                assert(keyed_exprs_view(o0)[j] == both_sided(cv, av, c@)[j]);
            }
        }
        i = i + 1;
    }
    assert(keyed_exprs_view(out@) =~= both_sided(cv, av, c@));
    out
}

/// The alternate's entries the consequent has no key for (see
/// [`alternate_only`]).
fn alternate_only_exec(cc: &Vec<(String, Expr)>, aa: &Vec<(String, Expr)>) -> (r: Vec<(String, Expr)>)
    ensures
        keyed_exprs_view(r@) == alternate_only(keyed_exprs_view(cc@), keyed_exprs_view(aa@)),
{
    let ghost cv = keyed_exprs_view(cc@);
    let ghost av = keyed_exprs_view(aa@);
    let mut out: Vec<(String, Expr)> = Vec::new();
    let mut i: usize = 0;
    assert(av.take(0) =~= Seq::<PropEntry>::empty());
    while i < aa.len()
        invariant
            i <= aa@.len() == av.len(),
            cv == keyed_exprs_view(cc@),
            av == keyed_exprs_view(aa@),
            keyed_exprs_view(out@) == alternate_only(cv, av.take(i as int)),
        decreases aa@.len() - i,
    {
        assert(av.take(i + 1).drop_last() =~= av.take(i as int));
        assert(av.take(i + 1).last() == av[i as int]);
        match key_index_exec(cc, aa[i].0.as_str()) {
            Some(_) => {},
            None => {
                let ghost o0 = out@;
                out.push((aa[i].0.as_str().to_string(), copy_expr(&aa[i].1)));
                assert(keyed_exprs_view(out@) =~= keyed_exprs_view(o0).push(av[i as int]));
            },
        }
        i = i + 1;
    }
    assert(av.take(i as int) =~= av);
    out
}

/// `more` appended to `out`.
fn append_entries(out: &mut Vec<(String, Expr)>, more: Vec<(String, Expr)>)
    ensures
        keyed_exprs_view(final(out)@) == keyed_exprs_view(old(out)@) + keyed_exprs_view(more@),
{
    let ghost start = keyed_exprs_view(out@);
    let ghost all = keyed_exprs_view(more@);
    let mut more = more;
    let n = more.len();
    let mut k: usize = 0;
    while k < n
        invariant
            k <= n == all.len(),
            more@.len() == n - k,
            forall|i: int| 0 <= i < more@.len() ==> keyed_exprs_view(more@)[i] == all[i + k],
            keyed_exprs_view(out@) == start + all.take(k as int),
        decreases n - k,
    {
        let ghost r0 = more@;
        let ghost o0 = out@;
        let x = more.remove(0);
        assert(keyed_exprs_view(r0)[0] == all[k as int]);
        assert forall|i: int| 0 <= i < more@.len() implies keyed_exprs_view(more@)[i] == all[i + k + 1] by {
            assert(more@[i] == r0[i + 1]);
            assert(keyed_exprs_view(r0)[i + 1] == all[i + 1 + k]);
        }
        out.push(x);
        assert(keyed_exprs_view(out@) =~= keyed_exprs_view(o0).push(all[k as int]));
        assert(all.take(k + 1) =~= all.take(k as int).push(all[k as int]));
        k = k + 1;
    }
    assert(all.take(n as int) =~= all);
}

/// The view of (key, expression) text pairs.
pub open spec fn items_view(v: Seq<(String, String)>) -> Seq<(Seq<char>, Seq<char>)> {
    Seq::new(v.len(), |i: int| (v[i].0@, v[i].1@))
}

/// The view of variable groups.
pub open spec fn groups_view(g: Seq<(String, Vec<(String, String)>)>) -> Groups {
    Seq::new(g.len(), |i: int| (g[i].0@, items_view(g[i].1@)))
}

proof fn lemma_group_index(g: Groups, k: Seq<char>)
    ensures
        -1 <= group_index(g, k) < g.len(),
        group_index(g, k) >= 0 ==> g[group_index(g, k)].0 == k && forall|i: int|
            0 <= i < group_index(g, k) ==> #[trigger] g[i].0 != k,
        group_index(g, k) < 0 ==> forall|i: int| 0 <= i < g.len() ==> #[trigger] g[i].0 != k,
    decreases g.len(),
{
    if g.len() > 0 {
        let t = g.drop_last();
        lemma_group_index(t, k);
        assert forall|i: int| 0 <= i < t.len() implies t[i] == g[i] by {}
    }
}

/// `item` added to the group named `name` (see [`group_add`]).
fn group_add_exec(groups: &mut Vec<(String, Vec<(String, String)>)>, name: String, item: (String, String))
    ensures
        groups_view(final(groups)@) == group_add(groups_view(old(groups)@), name@, (item.0@, item.1@)),
{
    let ghost gv = groups_view(groups@);
    proof {
        lemma_group_index(gv, name@);
    }
    let mut j: usize = 0;
    while j < groups.len()
        invariant
            j <= groups@.len() == gv.len(),
            gv == groups_view(groups@),
            forall|i: int| 0 <= i < j ==> #[trigger] gv[i].0 != name@,
        ensures
            j < groups@.len() ==> gv[j as int].0 == name@,
        decreases groups@.len() - j,
    {
        if str_eq(groups[j].0.as_str(), name.as_str()) {
            assert(gv[j as int].0 == name@);
            break;
        }
        j = j + 1;
    }
    let ghost iv = (item.0@, item.1@);
    if j < groups.len() {
        proof {
            let j0 = group_index(gv, name@);
            if j0 < 0 {
                assert(gv[j as int].0 != name@);
            } else if j0 < j {
                assert(gv[j0].0 != name@);
            } else if j0 > j {
                assert(gv[j as int].0 != name@);
            }
        }
        let ghost g0 = groups@;
        let (nm, mut items) = groups.remove(j);
        let ghost old_items = items@;
        items.push(item);
        assert(items_view(items@) =~= items_view(old_items).push(iv));
        groups.insert(j, (nm, items));
        assert(groups@ == g0.update(j as int, groups@[j as int]));
        assert(groups_view(groups@) =~= gv.update(j as int, (name@, gv[j as int].1.push(iv))));
    } else {
        let ghost g0 = groups@;
        let mut items: Vec<(String, String)> = Vec::new();
        items.push(item);
        assert(items_view(items@) =~= seq![iv]);
        groups.push((name, items));
        assert(groups_view(groups@) =~= gv.push((name@, seq![iv])));
    }
}

/// The styles of one keyed prop named in order (see [`style_groups`]).
fn style_groups_exec(
    st: &mut CssState,
    key: &str,
    styles: &Vec<ExtractStyleValue>,
    groups: &mut Vec<(String, Vec<(String, String)>)>,
    filename: Option<&str>,
)
    requires
        old(st).wf(),
    ensures
        final(st).wf(),
        same_settings(*final(st), *old(st)),
        style_groups(naming(*old(st)), key@, crate::extract_style::values_view(styles@), groups_view(old(groups)@), opt_seq(filename))
            == (naming(*final(st)), groups_view(final(groups)@)),
{
    let ghost vals = crate::extract_style::values_view(styles@);
    let ghost n0 = naming(*st);
    let ghost g0 = groups_view(groups@);
    let ghost st0 = *st;
    let mut k: usize = 0;
    assert(vals.take(0) =~= Seq::<StyleValueView>::empty());
    while k < styles.len()
        invariant
            k <= styles@.len() == vals.len(),
            vals == crate::extract_style::values_view(styles@),
            st.wf(),
            same_settings(*st, st0),
            style_groups(n0, key@, vals.take(k as int), g0, opt_seq(filename)) == (naming(*st), groups_view(groups@)),
        decreases styles@.len() - k,
    {
        assert(vals.take(k + 1).drop_last() =~= vals.take(k as int));
        assert(vals.take(k + 1).last() == styles@[k as int]@);
        let r = name_style(st, &styles[k], filename);
        match r {
            Some((vn, id)) => {
                let mut kc = String::new();
                crate::text::push_str(&mut kc, key);
                group_add_exec(groups, vn, (kc, id));
            },
            None => {},
        }
        k = k + 1;
    }
    assert(vals.take(k as int) =~= vals);
}

/// The keyed props of a member prop, walked in order (see [`member_groups`]).
fn member_groups_exec(st: &mut CssState, m: &Vec<(String, Box<StyleProp>)>, filename: Option<&str>) -> (r: Vec<
    (String, Vec<(String, String)>),
>)
    requires
        old(st).wf(),
    ensures
        final(st).wf(),
        same_settings(*final(st), *old(st)),
        member_groups(naming(*old(st)), member_entries_view(m@), opt_seq(filename)) == (naming(*final(st)), groups_view(r@)),
{
    let ghost mv = member_entries_view(m@);
    let ghost n0 = naming(*st);
    let ghost st0 = *st;
    let mut groups: Vec<(String, Vec<(String, String)>)> = Vec::new();
    let mut i: usize = 0;
    assert(mv.take(0) =~= Seq::<(Seq<char>, PropView)>::empty());
    assert(groups_view(groups@) =~= Seq::<(Seq<char>, Seq<(Seq<char>, Seq<char>)>)>::empty());
    while i < m.len()
        invariant
            i <= m@.len() == mv.len(),
            mv == member_entries_view(m@),
            st.wf(),
            same_settings(*st, st0),
            member_groups(n0, mv.take(i as int), opt_seq(filename)) == (naming(*st), groups_view(groups@)),
        decreases m@.len() - i,
    {
        assert(mv.take(i + 1).drop_last() =~= mv.take(i as int));
        assert(mv.take(i + 1).last() == mv[i as int]);
        let styles = m[i].1.extract();
        style_groups_exec(st, m[i].0.as_str(), &styles, &mut groups, filename);
        i = i + 1;
    }
    assert(mv.take(i as int) =~= mv);
    groups
}

/// One entry per variable (see [`group_entries`]).
fn group_entries_exec(groups: &Vec<(String, Vec<(String, String)>)>, e: &Expr) -> (r: Vec<(String, Expr)>)
    ensures
        keyed_exprs_view(r@) == group_entries(groups_view(groups@), e@),
{
    let ghost gv = groups_view(groups@);
    let mut out: Vec<(String, Expr)> = Vec::new();
    let mut i: usize = 0;
    while i < groups.len()
        invariant
            i <= groups@.len() == gv.len(),
            gv == groups_view(groups@),
            out@.len() == i,
            forall|j: int| 0 <= j < i ==> keyed_exprs_view(out@)[j] == group_entries(gv, e@)[j],
        decreases groups@.len() - i,
    {
        let items = &groups[i].1;
        let ghost iv = items_view(items@);
        assert(gv[i as int].1 == iv);
        let value = if items.len() == 1 {
            ident(items[0].1.as_str().to_string())
        } else {
            let mut props: Vec<(String, Expr)> = Vec::new();
            let mut k: usize = 0;
            while k < items.len()
                invariant
                    k <= items@.len() == iv.len(),
                    iv == items_view(items@),
                    props@.len() == k,
                    forall|q: int|
                        0 <= q < k ==> (#[trigger] props@[q]).0@ == iv[q].0 && props@[q].1@ == ExprView::Ident(
                            iv[q].1,
                        ),
                decreases items@.len() - k,
            {
                let a = items[k].0.as_str().to_string();
                let b = ident(items[k].1.as_str().to_string());
                props.push((a, b));
                k = k + 1;
            }
            let ghost pv = props@;
            let r = Expr::IdentMember(props, Box::new(copy_expr(e)));
            proof {
                match r@ {
                    ExprView::IdentMember(a, _) => {
                        assert(a =~= Seq::new(iv.len(), |q: int| (iv[q].0, ExprView::Ident(iv[q].1))));
                    },
                    _ => {},
                }
            }
            r
        };
        let ghost o0 = out@;
        out.push((groups[i].0.as_str().to_string(), value));
        assert forall|j: int| 0 <= j < i + 1 implies keyed_exprs_view(out@)[j] == group_entries(gv, e@)[j] by {
            if j < i {
                assert(out@[j] == o0[j]);
                assert(keyed_exprs_view(o0)[j] == group_entries(gv, e@)[j]);
            }
        }
        i = i + 1;
    }
    assert(keyed_exprs_view(out@) =~= group_entries(gv, e@));
    out
}

/// The `style` entries of one prop, naming its styles against `st` (see
/// [`style_entries`]).
pub fn gen_style(st: &mut CssState, p: &StyleProp, filename: Option<&str>) -> (r: Vec<(String, Expr)>)
    requires
        old(st).wf(),
    ensures
        final(st).wf(),
        same_settings(*final(st), *old(st)),
        style_entries(naming(*old(st)), p@, opt_seq(filename)) == (naming(*final(st)), keyed_exprs_view(r@)),
    decreases p,
{
    let ghost n0 = naming(*st);
    match p {
        StyleProp::Static(v) => {
            let mut out: Vec<(String, Expr)> = Vec::new();
            match name_style(st, v, filename) {
                Some((vn, id)) => {
                    out.push((vn, ident(id)));
                },
                None => {},
            }
            assert(keyed_exprs_view(out@) =~= value_entries(n0, v@, opt_seq(filename)));
            sort_desc_exec(out)
        },
        StyleProp::StaticArray(ps) => {
            proof {
                assert(decreases_to!(*p => (*p)->StaticArray_0));
                assert(decreases_to!((*p)->StaticArray_0 => (*p)->StaticArray_0@));
            }
            let out = rev_entries_of_exec(st, ps, filename);
            sort_desc_exec(out)
        },
        StyleProp::Conditional { condition, consequent, alternate } => {
            match (consequent, alternate) {
                (None, Some(a)) => {
                    let out = gen_style(st, &**a, filename);
                    sort_desc_exec(one_sided_exec(out, condition, false))
                },
                (Some(x), None) => {
                    let out = gen_style(st, &**x, filename);
                    sort_desc_exec(one_sided_exec(out, condition, true))
                },
                (Some(x), Some(a)) => {
                    let cc = gen_style(st, &**x, filename);
                    let aa = gen_style(st, &**a, filename);
                    let mut out = both_sided_exec(&cc, &aa, condition);
                    let only = alternate_only_exec(&cc, &aa);
                    append_entries(&mut out, only);
                    sort_desc_exec(out)
                },
                (None, None) => Vec::new(),
            }
        },
        StyleProp::MemberExpression { map, expression } => {
            let groups = member_groups_exec(st, map, filename);
            let out = group_entries_exec(&groups, expression);
            proof {
                match p@ {
                    PropView::MemberExpression(m, _) => {
                        assert(m =~= member_entries_view(map@));
                    },
                    _ => {},
                }
            }
            sort_desc_exec(out)
        },
        _ => Vec::new(),
    }
}

/// The entries of a list of props, walked from the last (see
/// [`rev_entries_of`]).
fn rev_entries_of_exec(st: &mut CssState, ps: &Vec<StyleProp>, filename: Option<&str>) -> (r: Vec<(String, Expr)>)
    requires
        old(st).wf(),
    ensures
        final(st).wf(),
        same_settings(*final(st), *old(st)),
        rev_entries_of(naming(*old(st)), props_view(ps@), opt_seq(filename)) == (naming(*final(st)), keyed_exprs_view(
            r@,
        )),
    decreases ps@,
{
    let ghost pv = props_view(ps@);
    let ghost n0 = naming(*st);
    let ghost st0 = *st;
    let mut acc: Vec<(String, Expr)> = Vec::new();
    let mut i = ps.len();
    assert(pv.subrange(0, i as int) =~= pv);
    assert(keyed_exprs_view(acc@) =~= Seq::<PropEntry>::empty());
    while i > 0
        invariant
            i <= ps@.len() == pv.len(),
            pv == props_view(ps@),
            st.wf(),
            same_settings(*st, st0),
            rev_entries_of(n0, pv, opt_seq(filename)) == ({
                let x = rev_entries_of(naming(*st), pv.subrange(0, i as int), opt_seq(filename));
                (x.0, keyed_exprs_view(acc@) + x.1)
            }),
        decreases i,
    {
        proof {
            assert(decreases_to!(ps@ => ps@[i - 1]));
            let t = pv.subrange(0, i as int);
            assert(t.subrange(0, t.len() - 1) =~= pv.subrange(0, i - 1));
            assert(t[t.len() - 1] == prop_view(ps@[i - 1]));
        }
        let ghost a0 = keyed_exprs_view(acc@);
        let out = gen_style(st, &ps[i - 1], filename);
        let rev = rev_entries_exec(out);
        append_entries(&mut acc, rev);
        proof {
            let x = rev_entries_of(naming(*st), pv.subrange(0, i - 1), opt_seq(filename));
            assert(keyed_exprs_view(acc@) + x.1 =~= a0 + (rev_entries(keyed_exprs_view(out@)) + x.1));
        }
        i = i - 1;
    }
    assert(pv.subrange(0, 0) =~= Seq::<PropView>::empty());
    assert(keyed_exprs_view(acc@) + Seq::<PropEntry>::empty() =~= keyed_exprs_view(acc@));
    acc
}

/// The `style` object of an element's props: `None` when there are no props
/// or none sets a variable; otherwise the entries of the props, walked from
/// the last (see [`rev_entries_of`]).
pub open spec fn style_object(n: NamingState, ps: Seq<PropView>, f: Option<Seq<char>>) -> (NamingState, Option<
    Seq<PropEntry>,
>) {
    if ps.len() == 0 {
        (n, None)
    } else {
        let (n2, out) = rev_entries_of(n, ps, f);
        (
            n2,
            if out.len() == 0 {
                None
            } else {
                Some(out)
            },
        )
    }
}

/// The view of optional entries.
pub open spec fn opt_entries_view(o: Option<Vec<(String, Expr)>>) -> Option<Seq<PropEntry>> {
    match o {
        Some(v) => Some(keyed_exprs_view(v@)),
        None => None,
    }
}

/// The properties of the `style` object of an element's props, naming their
/// styles against `st` (see [`style_object`]).
pub fn gen_styles(st: &mut CssState, style_props: &Vec<StyleProp>, filename: Option<&str>) -> (r: Option<
    Vec<(String, Expr)>,
>)
    requires
        old(st).wf(),
    ensures
        final(st).wf(),
        same_settings(*final(st), *old(st)),
        style_object(naming(*old(st)), props_view(style_props@), opt_seq(filename)) == (
            naming(*final(st)),
            opt_entries_view(r),
        ),
{
    if style_props.len() == 0 {
        return None;
    }
    let out = rev_entries_of_exec(st, style_props, filename);
    if out.len() == 0 {
        return None;
    }
    Some(out)
}

} // verus!
