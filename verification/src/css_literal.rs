//! Styles of a CSS template literal (`css`-tagged templates, `styled.div`
//! templates): the text parts are joined with a placeholder `__EXPR_<i>__`
//! standing for the `i`-th interpolation, the joined text is read as CSS,
//! and every style whose value holds placeholders is then resolved: with
//! literal interpolations it stays static (the literals put in), otherwise
//! it becomes dynamic, its value the interpolation's code or a template
//! literal around the codes.
//!
//! A template is described by [`CssTemplate`]: its text parts and, for each
//! interpolation, its code and its string value when it is a literal.
use vstd::prelude::*;
use crate::css_to_style::{css_to_style, statics_view, styles_of};
use crate::extract_style::{
    optimized_opt, selector_view, stripped_important, DynamicStyleView, ExtractDynamicStyle, ExtractStaticStyle,
    StaticStyleView, ThemeTokenResolution,
};
use crate::style_selector::{SelectorView, StyleSelector};
use crate::text::{
    chars_eq, chars_of, decimal, is_ascii_digit, occurs_at, push_all, push_chars, push_decimal, push_range,
    starts_with_at, string_from, trim, trim_bounds,
};

verus! {

/// An interpolation of a CSS template literal.
#[derive(Debug, Clone)]
pub struct TemplateExpression {
    /// Its string value, when it is a literal that evaluates to a string.
    pub literal: Option<String>,
    /// Its source code.
    pub code: String,
}

/// A CSS template literal: the text parts around the interpolations.
#[derive(Debug, Clone)]
pub struct CssTemplate {
    pub quasis: Vec<String>,
    pub expressions: Vec<TemplateExpression>,
}

/// A style read from a template literal.
#[derive(Debug)]
pub enum CssToStyleResult {
    Static(ExtractStaticStyle),
    Dynamic(ExtractDynamicStyle),
}

/// The mathematical value of a [`CssToStyleResult`].
pub enum ResultView {
    Static(StaticStyleView),
    Dynamic(DynamicStyleView),
}

impl View for CssToStyleResult {
    type V = ResultView;

    open spec fn view(&self) -> ResultView {
        match self {
            CssToStyleResult::Static(s) => ResultView::Static(s@),
            CssToStyleResult::Dynamic(d) => ResultView::Dynamic(d@),
        }
    }
}

/// The mathematical value of a [`TemplateExpression`].
pub struct ExprView {
    pub literal: Option<Seq<char>>,
    pub code: Seq<char>,
}

pub open spec fn expr_view(e: TemplateExpression) -> ExprView {
    ExprView {
        literal: match e.literal {
            Some(l) => Some(l@),
            None => None,
        },
        code: e.code@,
    }
}

pub open spec fn exprs_view(e: Seq<TemplateExpression>) -> Seq<ExprView> {
    e.map_values(|x: TemplateExpression| expr_view(x))
}

pub open spec fn quasis_view(q: Seq<String>) -> Seq<Seq<char>> {
    q.map_values(|s: String| s@)
}

pub open spec fn results_view(r: Seq<CssToStyleResult>) -> Seq<ResultView> {
    r.map_values(|x: CssToStyleResult| x@)
}

/// The text standing for interpolation `i`.
pub open spec fn placeholder(i: nat) -> Seq<char> {
    "__EXPR_"@ + decimal(i) + "__"@
}

/// The text parts joined, each of the first `n` followed by its
/// placeholder.
pub open spec fn combined_css(q: Seq<Seq<char>>, n: int) -> Seq<char>
    decreases q.len(),
{
    if q.len() == 0 {
        Seq::empty()
    } else {
        combined_css(q.drop_last(), n) + q.last() + if q.len() - 1 < n {
            placeholder((q.len() - 1) as nat)
        } else {
            Seq::empty()
        }
    }
}

/// The first occurrence of `p` in `s` at or after `from` (-1 when none).
pub open spec fn find_pat(s: Seq<char>, p: Seq<char>, from: int) -> int
    decreases s.len() - from,
{
    if from < 0 || p.len() == 0 || from + p.len() > s.len() {
        -1
    } else if occurs_at(s, p, from) {
        from
    } else {
        find_pat(s, p, from + 1)
    }
}

pub proof fn lemma_find_pat(s: Seq<char>, p: Seq<char>, from: int)
    ensures
        find_pat(s, p, from) == -1 || (from <= find_pat(s, p, from) && occurs_at(s, p, find_pat(s, p, from))),
        find_pat(s, p, from) == -1 ==> forall|j: int| from <= j ==> !#[trigger] occurs_at(s, p, j) || p.len()
            == 0 || from < 0,
        find_pat(s, p, from) != -1 ==> forall|j: int|
            from <= j < find_pat(s, p, from) ==> !#[trigger] occurs_at(s, p, j),
    decreases s.len() - from,
{
    if from < 0 || p.len() == 0 || from + p.len() > s.len() {
    } else if occurs_at(s, p, from) {
    } else {
        lemma_find_pat(s, p, from + 1);
    }
}

/// The end of the run of ASCII digits starting at `i`.
pub open spec fn digits_end(s: Seq<char>, i: int) -> int
    decreases s.len() - i,
{
    if 0 <= i < s.len() && is_ascii_digit(s[i]) {
        digits_end(s, i + 1)
    } else {
        i
    }
}

pub proof fn lemma_digits_end(s: Seq<char>, i: int)
    ensures
        digits_end(s, i) >= i,
        0 <= i <= s.len() ==> digits_end(s, i) <= s.len(),
    decreases s.len() - i,
{
    if 0 <= i < s.len() && is_ascii_digit(s[i]) {
        lemma_digits_end(s, i + 1);
    }
}

/// The first interpolation at or after `i` (below `n`) whose placeholder is
/// `ph`.
pub open spec fn reg_from(ph: Seq<char>, i: int, n: int) -> Option<nat>
    decreases n - i,
{
    if i < 0 || i >= n {
        None
    } else if placeholder(i as nat) == ph {
        Some(i as nat)
    } else {
        reg_from(ph, i + 1, n)
    }
}

/// Whether some entry has interpolation index `idx`.
pub open spec fn has_index(acc: Seq<(Seq<char>, nat)>, idx: nat) -> bool {
    exists|k: int| 0 <= k < acc.len() && #[trigger] acc[k].1 == idx
}

/// The registered placeholders of `v` from `from` on, in order of first
/// appearance, one per interpolation: a marker is `__EXPR_`, digits and
/// `__`; scanning resumes after a marker, or after `__EXPR_` when what
/// follows is no marker.
pub open spec fn found_scan(v: Seq<char>, from: int, n: int, acc: Seq<(Seq<char>, nat)>) -> Seq<
    (Seq<char>, nat),
>
    decreases v.len() - from,
{
    let m = find_pat(v, "__EXPR_"@, from);
    if m < 0 {
        acc
    } else {
        proof {
            lemma_find_pat(v, "__EXPR_"@, from);
            reveal_strlit("__EXPR_");
            lemma_digits_end(v, m + 7);
        }
        let ds = m + 7;
        let e = digits_end(v, ds);
        if e > ds && occurs_at(v, "__"@, e) {
            proof {
                reveal_strlit("__");
            }
            let ph = v.subrange(m, e + 2);
            let next = match reg_from(ph, 0, n) {
                Some(idx) => if has_index(acc, idx) {
                    acc
                } else {
                    acc.push((ph, idx))
                },
                None => acc,
            };
            found_scan(v, e + 2, n, next)
        } else {
            found_scan(v, ds, n, acc)
        }
    }
}

/// How placeholders are replaced when a value is rebuilt.
pub enum Subst {
    /// By the literal of their interpolation (listed by index), among the
    /// first `n` interpolations.
    Literals(int, Seq<(nat, Seq<char>)>),
    /// By the expansion listed for their text.
    Expansions(Seq<(Seq<char>, Seq<char>)>),
}

/// The first text listed for index `idx`.
pub open spec fn lookup_index(l: Seq<(nat, Seq<char>)>, idx: nat) -> Option<Seq<char>>
    decreases l.len(),
{
    if l.len() == 0 {
        None
    } else if l[0].0 == idx {
        Some(l[0].1)
    } else {
        lookup_index(l.drop_first(), idx)
    }
}

/// The first text listed for key `k`.
pub open spec fn lookup_text(l: Seq<(Seq<char>, Seq<char>)>, k: Seq<char>) -> Option<Seq<char>>
    decreases l.len(),
{
    if l.len() == 0 {
        None
    } else if l[0].0 == k {
        Some(l[0].1)
    } else {
        lookup_text(l.drop_first(), k)
    }
}

/// What replaces placeholder `ph`, if anything.
pub open spec fn subst_of(mode: Subst, ph: Seq<char>) -> Option<Seq<char>> {
    match mode {
        Subst::Literals(n, lits) => match reg_from(ph, 0, n) {
            Some(idx) => lookup_index(lits, idx),
            None => None,
        },
        Subst::Expansions(exps) => lookup_text(exps, ph),
    }
}

/// `v` from `cursor` on with its placeholders replaced; markers with no
/// replacement are kept.
pub open spec fn rebuild(v: Seq<char>, cursor: int, mode: Subst) -> Seq<char>
    decreases v.len() - cursor,
{
    let m = find_pat(v, "__EXPR_"@, cursor);
    if m < 0 {
        v.subrange(cursor, v.len() as int)
    } else {
        proof {
            lemma_find_pat(v, "__EXPR_"@, cursor);
            reveal_strlit("__EXPR_");
            lemma_digits_end(v, m + 7);
        }
        let ds = m + 7;
        let e = digits_end(v, ds);
        if e > ds && occurs_at(v, "__"@, e) {
            proof {
                reveal_strlit("__");
            }
            match subst_of(mode, v.subrange(m, e + 2)) {
                Some(x) => v.subrange(cursor, m) + x + rebuild(v, e + 2, mode),
                None => v.subrange(cursor, ds) + rebuild(v, ds, mode),
            }
        } else {
            v.subrange(cursor, ds) + rebuild(v, ds, mode)
        }
    }
}

/// Every found interpolation exists and has a literal.
pub open spec fn all_literal(found: Seq<(Seq<char>, nat)>, exprs: Seq<ExprView>) -> bool {
    forall|k: int|
        0 <= k < found.len() ==> #[trigger] found[k].1 < exprs.len() && exprs[found[k].1 as int].literal.is_some()
}

/// The literal of each found interpolation, by index.
pub open spec fn literals_of(found: Seq<(Seq<char>, nat)>, exprs: Seq<ExprView>) -> Seq<(nat, Seq<char>)> {
    found.map_values(|f: (Seq<char>, nat)| (f.1, exprs[f.1 as int].literal.unwrap()))
}

/// `${code}` for each found interpolation that exists, by placeholder.
pub open spec fn expansions_of(found: Seq<(Seq<char>, nat)>, exprs: Seq<ExprView>) -> Seq<(Seq<char>, Seq<char>)>
    decreases found.len(),
{
    if found.len() == 0 {
        Seq::empty()
    } else {
        let prev = expansions_of(found.drop_last(), exprs);
        let f = found.last();
        if f.1 < exprs.len() {
            prev.push((f.0, "${"@ + exprs[f.1 as int].code + "}"@))
        } else {
            prev
        }
    }
}

/// Whether the property holds one of the first `n` placeholders.
pub open spec fn prop_has_placeholder(p: Seq<char>, n: int) -> bool {
    exists|i: int| 0 <= i < n && #[trigger] crate::text::contains_seq(p, placeholder(i as nat))
}

/// A dynamic style for `id`.
pub open spec fn dynamic_view(p: Seq<char>, level: u8, id: Seq<char>, sel: Option<SelectorView>) -> DynamicStyleView {
    DynamicStyleView {
        property: p,
        level,
        identifier: stripped_important(id).0,
        selector: optimized_opt(sel),
        style_order: None,
        important: stripped_important(id).1,
    }
}

/// What a style read from the joined text becomes: itself when it holds no
/// placeholder (dropped when only its property holds one); static with the
/// literals put in when every interpolation it holds is a literal; dynamic
/// with the interpolation's code when its value is exactly one placeholder;
/// else dynamic with a template literal of its value around the codes.
pub open spec fn style_result(st: StaticStyleView, exprs: Seq<ExprView>, n: int) -> Option<ResultView> {
    let v = st.value;
    let p = st.property;
    if !crate::text::contains_seq(v, "__EXPR_"@) && !crate::text::contains_seq(p, "__EXPR_"@) {
        Some(ResultView::Static(st))
    } else {
        let found = found_scan(v, 0, n, Seq::empty());
        if found.len() == 0 {
            if !prop_has_placeholder(p, n) {
                Some(ResultView::Static(st))
            } else {
                None
            }
        } else if all_literal(found, exprs) {
            Some(
                ResultView::Static(
                    StaticStyleView {
                        property: p,
                        value: crate::extract_style::static_value(
                            p,
                            rebuild(v, 0, Subst::Literals(n, literals_of(found, exprs))),
                        ),
                        level: st.level,
                        selector: optimized_opt(st.selector),
                        style_order: None,
                        layer: None,
                        theme_token_resolution: ThemeTokenResolution::CssVariable,
                    },
                ),
            )
        } else if found.len() == 1 && trim(v) == found[0].0 && found[0].1 < exprs.len() {
            Some(ResultView::Dynamic(dynamic_view(p, st.level, exprs[found[0].1 as int].code, st.selector)))
        } else {
            Some(
                ResultView::Dynamic(
                    dynamic_view(
                        p,
                        st.level,
                        seq!['`'] + rebuild(v, 0, Subst::Expansions(expansions_of(found, exprs))) + seq!['`'],
                        st.selector,
                    ),
                ),
            )
        }
    }
}

/// The results of the styles, in order.
pub open spec fn results_of(statics: Seq<StaticStyleView>, exprs: Seq<ExprView>, n: int) -> Seq<ResultView>
    decreases statics.len(),
{
    if statics.len() == 0 {
        Seq::empty()
    } else {
        results_of(statics.drop_last(), exprs, n) + match style_result(statics.last(), exprs, n) {
            Some(r) => seq![r],
            None => Seq::empty(),
        }
    }
}

/// The static styles of each text part in turn.
pub open spec fn quasi_statics(q: Seq<Seq<char>>, level: u8, sel: Option<SelectorView>) -> Seq<ResultView>
    decreases q.len(),
{
    if q.len() == 0 {
        Seq::empty()
    } else {
        quasi_statics(q.drop_last(), level, sel) + styles_of(q.last(), level, sel).map_values(
            |s: StaticStyleView| ResultView::Static(s),
        )
    }
}

/// The styles of a template literal.
pub open spec fn literal_styles(q: Seq<Seq<char>>, exprs: Seq<ExprView>, level: u8, sel: Option<SelectorView>) -> Seq<
    ResultView,
> {
    if exprs.len() == 0 {
        quasi_statics(q, level, sel)
    } else {
        let n = if q.len() < exprs.len() {
            q.len()
        } else {
            exprs.len()
        };
        results_of(styles_of(combined_css(q, exprs.len() as int), level, sel), exprs, n as int)
    }
}

fn marker_chars() -> (r: Vec<char>)
    ensures
        r@ == "__EXPR_"@,
        r@.len() == 7,
{
    proof {
        reveal_strlit("__EXPR_");
    }
    chars_of("__EXPR_")
}

fn close_chars() -> (r: Vec<char>)
    ensures
        r@ == "__"@,
        r@.len() == 2,
{
    proof {
        reveal_strlit("__");
    }
    chars_of("__")
}

/// The first occurrence of `p` in `v` at or after `from`.
fn find_from(v: &Vec<char>, p: &Vec<char>, from: usize) -> (r: Option<usize>)
    ensures
        match r {
            Some(m) => find_pat(v@, p@, from as int) == m as int,
            None => find_pat(v@, p@, from as int) == -1,
        },
{
    if p.len() == 0 {
        return None;
    }
    let mut i = from;
    while i <= v.len() && p.len() <= v.len() - i
        invariant
            from <= i,
            p@.len() > 0,
            find_pat(v@, p@, from as int) == find_pat(v@, p@, i as int),
        decreases v@.len() - i,
    {
        if starts_with_at(v, i, p) {
            return Some(i);
        }
        i = i + 1;
    }
    None
}

/// The end of the run of ASCII digits starting at `i`.
fn digits_end_exec(v: &Vec<char>, i: usize) -> (r: usize)
    requires
        i <= v@.len(),
    ensures
        r as int == digits_end(v@, i as int),
        i <= r <= v@.len(),
{
    let mut j = i;
    while j < v.len() && '0' <= v[j] && v[j] <= '9'
        invariant
            i <= j <= v@.len(),
            digits_end(v@, i as int) == digits_end(v@, j as int),
        decreases v@.len() - j,
    {
        j = j + 1;
    }
    j
}

/// The placeholder of interpolation `i`.
fn placeholder_exec(i: usize) -> (r: Vec<char>)
    ensures
        r@ == placeholder(i as nat),
{
    let mut r = marker_chars();
    push_decimal(&mut r, i as u64);
    let c = close_chars();
    push_all(&mut r, &c);
    r
}

/// The interpolation (below `n`) whose placeholder is `ph`.
fn registered(ph: &Vec<char>, n: usize) -> (r: Option<usize>)
    ensures
        match r {
            Some(i) => reg_from(ph@, 0, n as int) == Some(i as nat) && i < n,
            None => reg_from(ph@, 0, n as int).is_none(),
        },
{
    let mut i: usize = 0;
    while i < n
        invariant
            i <= n,
            reg_from(ph@, 0, n as int) == reg_from(ph@, i as int, n as int),
        decreases n - i,
    {
        let cand = placeholder_exec(i);
        if chars_eq(&cand, ph) {
            return Some(i);
        }
        i = i + 1;
    }
    None
}

pub open spec fn found_view(f: Seq<(Vec<char>, usize)>) -> Seq<(Seq<char>, nat)> {
    f.map_values(|x: (Vec<char>, usize)| (x.0@, x.1 as nat))
}

fn has_index_exec(acc: &Vec<(Vec<char>, usize)>, idx: usize) -> (r: bool)
    ensures
        r == has_index(found_view(acc@), idx as nat),
{
    let mut k: usize = 0;
    while k < acc.len()
        invariant
            k <= acc@.len(),
            forall|j: int| 0 <= j < k ==> acc@[j].1 != idx,
        decreases acc@.len() - k,
    {
        if acc[k].1 == idx {
            assert(found_view(acc@)[k as int].1 == idx as nat);
            return true;
        }
        k = k + 1;
    }
    assert forall|j: int| 0 <= j < found_view(acc@).len() implies #[trigger] found_view(acc@)[j].1 != idx as nat by {
        assert(found_view(acc@)[j].1 == acc@[j].1 as nat);
    }
    false
}

/// The registered placeholders of `v` among the first `n`, in order of first
/// appearance.
fn found_placeholders(v: &Vec<char>, n: usize) -> (r: Vec<(Vec<char>, usize)>)
    ensures
        found_view(r@) == found_scan(v@, 0, n as int, Seq::empty()),
        forall|k: int| 0 <= k < r@.len() ==> #[trigger] r@[k].1 < n,
{
    let marker = marker_chars();
    let close = close_chars();
    let mut acc: Vec<(Vec<char>, usize)> = Vec::new();
    let mut from: usize = 0;
    assert(found_view(acc@) =~= Seq::<(Seq<char>, nat)>::empty());
    loop
        invariant
            from <= v@.len(),
            marker@ == "__EXPR_"@,
            marker@.len() == 7,
            close@ == "__"@,
            close@.len() == 2,
            found_scan(v@, 0, n as int, Seq::empty()) == found_scan(v@, from as int, n as int, found_view(acc@)),
            forall|k: int| 0 <= k < acc@.len() ==> #[trigger] acc@[k].1 < n,
        ensures
            found_scan(v@, 0, n as int, Seq::empty()) == found_view(acc@),
            forall|k: int| 0 <= k < acc@.len() ==> #[trigger] acc@[k].1 < n,
        decreases v@.len() - from,
    {
        let ghost before = found_view(acc@);
        let vlen = v.len();
        proof {
            lemma_find_pat(v@, "__EXPR_"@, from as int);
        }
        match find_from(v, &marker, from) {
            None => {
                break;
            },
            Some(m) => {
                assert(occurs_at(v@, marker@, m as int));
                assert(m + 7 <= v@.len());
                let ds = m + 7;
                let e = digits_end_exec(v, ds);
                proof {
                    lemma_digits_end(v@, ds as int);
                }
                if e > ds && starts_with_at(v, e, &close) {
                    assert(e + 2 <= v@.len());
                    assert(occurs_at(v@, "__"@, e as int));
                    let mut ph: Vec<char> = Vec::new();
                    push_range(&mut ph, v, m, e + 2);
                    assert(ph@ == v@.subrange(m as int, e + 2));
                    match registered(&ph, n) {
                        Some(idx) => {
                            if !has_index_exec(&acc, idx) {
                                let ghost phv = ph@;
                                acc.push((ph, idx));
                                assert(found_view(acc@) =~= before.push((phv, idx as nat)));
                            }
                        },
                        None => {},
                    }
                    from = e + 2;
                } else {
                    from = ds;
                }
            },
        }
    }
    acc
}

/// How placeholders are replaced, as data.
enum Replacements {
    Literals(usize, Vec<(usize, Vec<char>)>),
    Expansions(Vec<(Vec<char>, Vec<char>)>),
}

spec fn index_pairs(l: Seq<(usize, Vec<char>)>) -> Seq<(nat, Seq<char>)> {
    l.map_values(|x: (usize, Vec<char>)| (x.0 as nat, x.1@))
}

spec fn text_pairs(l: Seq<(Vec<char>, Vec<char>)>) -> Seq<(Seq<char>, Seq<char>)> {
    l.map_values(|x: (Vec<char>, Vec<char>)| (x.0@, x.1@))
}

spec fn replacements_view(r: Replacements) -> Subst {
    match r {
        Replacements::Literals(n, l) => Subst::Literals(n as int, index_pairs(l@)),
        Replacements::Expansions(l) => Subst::Expansions(text_pairs(l@)),
    }
}

fn lookup_index_exec(l: &Vec<(usize, Vec<char>)>, idx: usize) -> (r: Option<Vec<char>>)
    ensures
        match r {
            Some(t) => lookup_index(index_pairs(l@), idx as nat) == Some(t@),
            None => lookup_index(index_pairs(l@), idx as nat).is_none(),
        },
{
    let ghost lv = index_pairs(l@);
    let mut k: usize = 0;
    assert(lv.skip(0) == lv);
    while k < l.len()
        invariant
            k <= l@.len(),
            lv == index_pairs(l@),
            lookup_index(lv, idx as nat) == lookup_index(lv.skip(k as int), idx as nat),
        decreases l@.len() - k,
    {
        assert(lv.skip(k as int).drop_first() == lv.skip(k + 1));
        assert(lv.skip(k as int)[0] == lv[k as int]);
        if l[k].0 == idx {
            let mut t: Vec<char> = Vec::new();
            push_all(&mut t, &l[k].1);
            return Some(t);
        }
        k = k + 1;
    }
    None
}

fn lookup_text_exec(l: &Vec<(Vec<char>, Vec<char>)>, key: &Vec<char>) -> (r: Option<Vec<char>>)
    ensures
        match r {
            Some(t) => lookup_text(text_pairs(l@), key@) == Some(t@),
            None => lookup_text(text_pairs(l@), key@).is_none(),
        },
{
    let ghost lv = text_pairs(l@);
    let mut k: usize = 0;
    assert(lv.skip(0) == lv);
    while k < l.len()
        invariant
            k <= l@.len(),
            lv == text_pairs(l@),
            lookup_text(lv, key@) == lookup_text(lv.skip(k as int), key@),
        decreases l@.len() - k,
    {
        assert(lv.skip(k as int).drop_first() == lv.skip(k + 1));
        assert(lv.skip(k as int)[0] == lv[k as int]);
        if chars_eq(&l[k].0, key) {
            let mut t: Vec<char> = Vec::new();
            push_all(&mut t, &l[k].1);
            return Some(t);
        }
        k = k + 1;
    }
    None
}

fn subst_exec(mode: &Replacements, ph: &Vec<char>) -> (r: Option<Vec<char>>)
    ensures
        match r {
            Some(t) => subst_of(replacements_view(*mode), ph@) == Some(t@),
            None => subst_of(replacements_view(*mode), ph@).is_none(),
        },
{
    match mode {
        Replacements::Literals(n, lits) => match registered(ph, *n) {
            Some(idx) => lookup_index_exec(lits, idx),
            None => None,
        },
        Replacements::Expansions(exps) => lookup_text_exec(exps, ph),
    }
}

/// `v` with its placeholders replaced.
fn rebuild_exec(v: &Vec<char>, mode: &Replacements) -> (r: Vec<char>)
    ensures
        r@ == rebuild(v@, 0, replacements_view(*mode)),
{
    let ghost md = replacements_view(*mode);
    let marker = marker_chars();
    let close = close_chars();
    let mut out: Vec<char> = Vec::new();
    let mut cursor: usize = 0;
    assert(out@ + rebuild(v@, 0, md) =~= rebuild(v@, 0, md));
    loop
        invariant_except_break
            rebuild(v@, 0, md) == out@ + rebuild(v@, cursor as int, md),
        invariant
            cursor <= v@.len(),
            md == replacements_view(*mode),
            marker@ == "__EXPR_"@,
            marker@.len() == 7,
            close@ == "__"@,
            close@.len() == 2,
        ensures
            rebuild(v@, 0, md) == out@,
        decreases v@.len() - cursor,
    {
        let vlen = v.len();
        let ghost before = out@;
        proof {
            lemma_find_pat(v@, "__EXPR_"@, cursor as int);
        }
        match find_from(v, &marker, cursor) {
            None => {
                push_range(&mut out, v, cursor, vlen);
                assert(out@ == before + rebuild(v@, cursor as int, md));
                break;
            },
            Some(m) => {
                assert(occurs_at(v@, marker@, m as int));
                assert(m + 7 <= v@.len());
                let ds = m + 7;
                let e = digits_end_exec(v, ds);
                if e > ds && starts_with_at(v, e, &close) {
                    assert(e + 2 <= v@.len());
                    assert(occurs_at(v@, "__"@, e as int));
                    let mut ph: Vec<char> = Vec::new();
                    push_range(&mut ph, v, m, e + 2);
                    match subst_exec(mode, &ph) {
                        Some(x) => {
                            push_range(&mut out, v, cursor, m);
                            push_all(&mut out, &x);
                            assert(before + rebuild(v@, cursor as int, md) =~= out@ + rebuild(v@, e + 2, md));
                            cursor = e + 2;
                        },
                        None => {
                            push_range(&mut out, v, cursor, ds);
                            assert(before + rebuild(v@, cursor as int, md) =~= out@ + rebuild(v@, ds as int, md));
                            cursor = ds;
                        },
                    }
                } else {
                    push_range(&mut out, v, cursor, ds);
                    assert(before + rebuild(v@, cursor as int, md) =~= out@ + rebuild(v@, ds as int, md));
                    cursor = ds;
                }
            },
        }
    }
    out
}

fn copy_selector(sel: &Option<StyleSelector>) -> (r: Option<StyleSelector>)
    ensures
        selector_view(r) == selector_view(*sel),
{
    match sel {
        Some(s) => Some(s.copy()),
        None => None,
    }
}

fn copy_static(st: &ExtractStaticStyle) -> (r: ExtractStaticStyle)
    ensures
        r@ == st@,
{
    let mut property: Vec<char> = Vec::new();
    push_chars(&mut property, st.property.as_str());
    let mut value: Vec<char> = Vec::new();
    push_chars(&mut value, st.value.as_str());
    let layer = match &st.layer {
        Some(l) => {
            let mut lv: Vec<char> = Vec::new();
            push_chars(&mut lv, l.as_str());
            Some(string_from(&lv))
        },
        None => None,
    };
    ExtractStaticStyle {
        property: string_from(&property),
        value: string_from(&value),
        level: st.level,
        selector: copy_selector(&st.selector),
        style_order: st.style_order,
        layer,
        theme_token_resolution: st.theme_token_resolution,
    }
}

/// Whether the property holds one of the first `n` placeholders.
fn prop_has_placeholder_exec(p: &Vec<char>, n: usize) -> (r: bool)
    ensures
        r == prop_has_placeholder(p@, n as int),
{
    let mut i: usize = 0;
    while i < n
        invariant
            i <= n,
            forall|j: int| 0 <= j < i ==> !#[trigger] crate::text::contains_seq(p@, placeholder(j as nat)),
        decreases n - i,
    {
        let ph = placeholder_exec(i);
        if crate::text::contains_chars(p, &ph) {
            let ghost j: int = i as int;
            assert(crate::text::contains_seq(p@, placeholder(j as nat)));
            assert(0 <= j < n);
            return true;
        }
        i = i + 1;
    }
    false
}

/// Whether every found interpolation exists and has a literal.
fn all_literal_exec(found: &Vec<(Vec<char>, usize)>, exprs: &Vec<TemplateExpression>) -> (r: bool)
    ensures
        r == all_literal(found_view(found@), exprs_view(exprs@)),
{
    let ghost fv = found_view(found@);
    let ghost ev = exprs_view(exprs@);
    let mut k: usize = 0;
    while k < found.len()
        invariant
            k <= found@.len(),
            fv == found_view(found@),
            ev == exprs_view(exprs@),
            forall|j: int| 0 <= j < k ==> #[trigger] fv[j].1 < ev.len() && ev[fv[j].1 as int].literal.is_some(),
        decreases found@.len() - k,
    {
        let idx = found[k].1;
        if idx >= exprs.len() {
            assert(!(fv[k as int].1 < ev.len()));
            return false;
        }
        if exprs[idx].literal.is_none() {
            assert(ev[fv[k as int].1 as int].literal.is_none());
            return false;
        }
        k = k + 1;
    }
    true
}

/// The literal of each found interpolation (all of them literals).
fn literals_exec(found: &Vec<(Vec<char>, usize)>, exprs: &Vec<TemplateExpression>) -> (r: Vec<(usize, Vec<char>)>)
    requires
        all_literal(found_view(found@), exprs_view(exprs@)),
    ensures
        index_pairs(r@) == literals_of(found_view(found@), exprs_view(exprs@)),
{
    let ghost fv = found_view(found@);
    let ghost ev = exprs_view(exprs@);
    let mut out: Vec<(usize, Vec<char>)> = Vec::new();
    let mut k: usize = 0;
    while k < found.len()
        invariant
            k <= found@.len(),
            fv == found_view(found@),
            ev == exprs_view(exprs@),
            all_literal(fv, ev),
            index_pairs(out@) == literals_of(fv, ev).take(k as int),
        decreases found@.len() - k,
    {
        let idx = found[k].1;
        assert(fv[k as int].1 < ev.len());
        let lit = match &exprs[idx].literal {
            Some(l) => chars_of(l.as_str()),
            None => Vec::new(),
        };
        let ghost before = index_pairs(out@);
        out.push((idx, lit));
        assert(index_pairs(out@) =~= before.push((idx as nat, lit@)));
        assert(literals_of(fv, ev).take(k + 1) =~= literals_of(fv, ev).take(k as int).push(literals_of(fv, ev)[k as int]));
        k = k + 1;
    }
    assert(literals_of(fv, ev).take(k as int) =~= literals_of(fv, ev));
    out
}

/// `${code}` for each found interpolation that exists.
fn expansions_exec(found: &Vec<(Vec<char>, usize)>, exprs: &Vec<TemplateExpression>) -> (r: Vec<(Vec<char>, Vec<char>)>)
    ensures
        text_pairs(r@) == expansions_of(found_view(found@), exprs_view(exprs@)),
{
    let ghost fv = found_view(found@);
    let ghost ev = exprs_view(exprs@);
    let mut out: Vec<(Vec<char>, Vec<char>)> = Vec::new();
    let mut k: usize = 0;
    assert(fv.take(0) =~= Seq::<(Seq<char>, nat)>::empty());
    while k < found.len()
        invariant
            k <= found@.len(),
            fv == found_view(found@),
            ev == exprs_view(exprs@),
            text_pairs(out@) == expansions_of(fv.take(k as int), ev),
        decreases found@.len() - k,
    {
        assert(fv.take(k + 1).drop_last() == fv.take(k as int));
        let idx = found[k].1;
        if idx < exprs.len() {
            let mut ph: Vec<char> = Vec::new();
            push_all(&mut ph, &found[k].0);
            let mut ex: Vec<char> = Vec::new();
            push_chars(&mut ex, "${");
            push_chars(&mut ex, exprs[idx].code.as_str());
            push_chars(&mut ex, "}");
            let ghost before = text_pairs(out@);
            out.push((ph, ex));
            assert(text_pairs(out@) =~= before.push((fv[k as int].0, "${"@ + ev[idx as int].code + "}"@)));
        }
        k = k + 1;
    }
    assert(fv.take(k as int) == fv);
    out
}

/// What a style read from the joined text becomes (see [`style_result`]).
fn style_result_exec(st: &ExtractStaticStyle, exprs: &Vec<TemplateExpression>, n: usize) -> (r: Option<
    CssToStyleResult,
>)
    ensures
        match r {
            Some(x) => style_result(st@, exprs_view(exprs@), n as int) == Some(x@),
            None => style_result(st@, exprs_view(exprs@), n as int).is_none(),
        },
{
    let ghost ev = exprs_view(exprs@);
    let v = chars_of(st.value.as_str());
    let p = chars_of(st.property.as_str());
    let marker = marker_chars();
    if !crate::text::contains_chars(&v, &marker) && !crate::text::contains_chars(&p, &marker) {
        return Some(CssToStyleResult::Static(copy_static(st)));
    }
    let found = found_placeholders(&v, n);
    let ghost fv = found_view(found@);
    if found.len() == 0 {
        if !prop_has_placeholder_exec(&p, n) {
            return Some(CssToStyleResult::Static(copy_static(st)));
        }
        return None;
    }
    if all_literal_exec(&found, exprs) {
        let lits = literals_exec(&found, exprs);
        let mode = Replacements::Literals(n, lits);
        let value = rebuild_exec(&v, &mode);
        let value_str = string_from(&value);
        let style = ExtractStaticStyle::new(st.property.as_str(), value_str.as_str(), st.level, copy_selector(&st.selector));
        return Some(CssToStyleResult::Static(style));
    }
    let (lo, hi) = trim_bounds(&v, 0, v.len());
    assert(v@.subrange(0, v@.len() as int) == v@);
    let mut trimmed: Vec<char> = Vec::new();
    push_range(&mut trimmed, &v, lo, hi);
    if found.len() == 1 && chars_eq(&trimmed, &found[0].0) && found[0].1 < exprs.len() {
        let idx = found[0].1;
        let d = ExtractDynamicStyle::new(
            st.property.as_str(),
            st.level,
            exprs[idx].code.as_str(),
            copy_selector(&st.selector),
        );
        return Some(CssToStyleResult::Dynamic(d));
    }
    let exps = expansions_exec(&found, exprs);
    let mode = Replacements::Expansions(exps);
    let body = rebuild_exec(&v, &mode);
    let mut t: Vec<char> = Vec::new();
    t.push('`');
    push_all(&mut t, &body);
    t.push('`');
    assert(t@ =~= seq!['`'] + body@ + seq!['`']);
    let id = string_from(&t);
    let d = ExtractDynamicStyle::new(st.property.as_str(), st.level, id.as_str(), copy_selector(&st.selector));
    Some(CssToStyleResult::Dynamic(d))
}

/// The styles of a CSS template literal: without interpolations, the styles
/// of each text part; otherwise the styles of the parts joined around
/// placeholders, each resolved against the interpolations.
pub fn css_to_style_literal(css: &CssTemplate, level: u8, selector: &Option<StyleSelector>) -> (r: Vec<
    CssToStyleResult,
>)
    ensures
        results_view(r@) == literal_styles(
            quasis_view(css.quasis@),
            exprs_view(css.expressions@),
            level,
            selector_view(*selector),
        ),
{
    let ghost q = quasis_view(css.quasis@);
    let ghost ev = exprs_view(css.expressions@);
    let ghost sv = selector_view(*selector);
    let mut styles: Vec<CssToStyleResult> = Vec::new();
    if css.expressions.len() == 0 {
        let mut i: usize = 0;
        assert(q.take(0) =~= Seq::<Seq<char>>::empty());
        while i < css.quasis.len()
            invariant
                i <= css.quasis@.len(),
                q == quasis_view(css.quasis@),
                sv == selector_view(*selector),
                results_view(styles@) == quasi_statics(q.take(i as int), level, sv),
            decreases css.quasis@.len() - i,
        {
            assert(q.take(i + 1).drop_last() == q.take(i as int));
            let part = css_to_style(css.quasis[i].as_str(), level, selector);
            let ghost before = results_view(styles@);
            let mut k: usize = 0;
            let ghost pv = statics_view(part@);
            while k < part.len()
                invariant
                    k <= part@.len(),
                    pv == statics_view(part@),
                    results_view(styles@) == before + pv.take(k as int).map_values(
                        |s: StaticStyleView| ResultView::Static(s),
                    ),
                decreases part@.len() - k,
            {
                let st = copy_static(&part[k]);
                let ghost b2 = results_view(styles@);
                styles.push(CssToStyleResult::Static(st));
                assert(results_view(styles@) =~= b2.push(ResultView::Static(pv[k as int])));
                assert(pv.take(k + 1).map_values(|s: StaticStyleView| ResultView::Static(s)) =~= pv.take(
                    k as int,
                ).map_values(|s: StaticStyleView| ResultView::Static(s)).push(ResultView::Static(pv[k as int])));
                k = k + 1;
            }
            assert(pv.take(pv.len() as int) == pv);
            i = i + 1;
        }
        assert(q.take(i as int) == q);
        return styles;
    }
    let nq = css.quasis.len();
    let ne = css.expressions.len();
    let n = if nq < ne {
        nq
    } else {
        ne
    };
    let mut combined: Vec<char> = Vec::new();
    let mut i: usize = 0;
    assert(q.take(0) =~= Seq::<Seq<char>>::empty());
    while i < nq
        invariant
            i <= nq == css.quasis@.len(),
            ne == css.expressions@.len(),
            q == quasis_view(css.quasis@),
            combined@ == combined_css(q.take(i as int), ne as int),
        decreases nq - i,
    {
        assert(q.take(i + 1).drop_last() == q.take(i as int));
        assert(q.take(i + 1).last() == css.quasis@[i as int]@);
        push_chars(&mut combined, css.quasis[i].as_str());
        if i < ne {
            let ph = placeholder_exec(i);
            push_all(&mut combined, &ph);
        }
        proof {
            let t = q.take(i + 1);
            assert(t.len() - 1 == i);
        }
        i = i + 1;
    }
    assert(q.take(nq as int) == q);
    let text = string_from(&combined);
    let statics = css_to_style(text.as_str(), level, selector);
    let ghost stv = statics_view(statics@);
    let mut k: usize = 0;
    assert(stv.take(0) =~= Seq::<StaticStyleView>::empty());
    while k < statics.len()
        invariant
            k <= statics@.len(),
            stv == statics_view(statics@),
            ev == exprs_view(css.expressions@),
            n <= ne == css.expressions@.len(),
            results_view(styles@) == results_of(stv.take(k as int), ev, n as int),
        decreases statics@.len() - k,
    {
        assert(stv.take(k + 1).drop_last() == stv.take(k as int));
        assert(stv.take(k + 1).last() == statics@[k as int]@);
        let ghost before = results_view(styles@);
        match style_result_exec(&statics[k], &css.expressions, n) {
            Some(x) => {
                styles.push(x);
                assert(results_view(styles@) =~= before + seq![x@]);
            },
            None => {
                assert(results_view(styles@) =~= before + Seq::<ResultView>::empty());
            },
        }
        k = k + 1;
    }
    assert(stv.take(k as int) == stv);
    styles
}

} // verus!
