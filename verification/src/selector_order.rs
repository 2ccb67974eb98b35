//! The order in which selectors' styles are emitted: global selectors
//! first, then plain selectors, then at-rules; plain selectors by their
//! pseudo-class order, global ones by the order of their pseudo suffix.
use vstd::prelude::*;
use std::cmp::Ordering;
use crate::style_selector::{
    get_selector_order, global_order, global_selector_order, selector_order, rules_view, opt_string,
    AtRule, AtRuleKind, SelectorView, StyleSelector,
};
use crate::text::chars_of;

verus! {

/// The rank of an at-rule kind, in declaration order.
pub open spec fn kind_rank(k: AtRuleKind) -> int {
    match k {
        AtRuleKind::Media => 0,
        AtRuleKind::Supports => 1,
        AtRuleKind::Container => 2,
        AtRuleKind::Layer => 3,
    }
}

/// `-1`, `0` or `1` as `a` is below, equal to or above `b`.
pub open spec fn int_order(a: int, b: int) -> int {
    if a < b {
        -1
    } else if a > b {
        1
    } else {
        0
    }
}

/// The lexicographic order of two texts (by code point, as `String`
/// orders its UTF-8 bytes).
pub open spec fn text_order(a: Seq<char>, b: Seq<char>) -> int
    decreases a.len(),
{
    if a.len() == 0 {
        if b.len() == 0 {
            0
        } else {
            -1
        }
    } else if b.len() == 0 {
        1
    } else if a[0] != b[0] {
        if (a[0] as u32) < (b[0] as u32) {
            -1
        } else {
            1
        }
    } else {
        text_order(a.drop_first(), b.drop_first())
    }
}

/// The order of two optional texts: absent first.
pub open spec fn opt_text_order(a: Option<Seq<char>>, b: Option<Seq<char>>) -> int {
    match (a, b) {
        (None, None) => 0,
        (None, Some(_)) => -1,
        (Some(_), None) => 1,
        (Some(x), Some(y)) => text_order(x, y),
    }
}

/// The order of two at-rules: by kind, then by prelude.
pub open spec fn rule_order(a: (AtRuleKind, Seq<char>), b: (AtRuleKind, Seq<char>)) -> int {
    if kind_rank(a.0) != kind_rank(b.0) {
        int_order(kind_rank(a.0), kind_rank(b.0))
    } else {
        text_order(a.1, b.1)
    }
}

/// The lexicographic order of two lists of at-rules.
pub open spec fn rules_order(a: Seq<(AtRuleKind, Seq<char>)>, b: Seq<(AtRuleKind, Seq<char>)>) -> int
    decreases a.len(),
{
    if a.len() == 0 {
        if b.len() == 0 {
            0
        } else {
            -1
        }
    } else if b.len() == 0 {
        1
    } else if rule_order(a[0], b[0]) != 0 {
        rule_order(a[0], b[0])
    } else {
        rules_order(a.drop_first(), b.drop_first())
    }
}

/// The first nonzero of two orders.
pub open spec fn then(a: int, b: int) -> int {
    if a != 0 {
        a
    } else {
        b
    }
}

/// The part of a global selector from its first `:`.
pub open spec fn from_first_colon(s: Seq<char>) -> Seq<char>
    decreases s.len(),
{
    if s.len() == 0 {
        s
    } else if s[0] == ':' {
        s
    } else {
        from_first_colon(s.drop_first())
    }
}

/// The rank of a selector's variant: global, plain, at-rule.
pub open spec fn variant_rank(s: SelectorView) -> int {
    match s {
        SelectorView::Global(..) => 0,
        SelectorView::Selector(_) => 1,
        SelectorView::At { .. } => 2,
    }
}

/// The order of two selectors (`-1`, `0`, `1`).
pub open spec fn selector_rank_order(a: SelectorView, b: SelectorView) -> int {
    match (a, b) {
        (
            SelectorView::At { kind: ka, query: qa, selector: sa, outer: oa, file: fa },
            SelectorView::At { kind: kb, query: qb, selector: sb, outer: ob, file: fb },
        ) => then(
            int_order(kind_rank(ka), kind_rank(kb)),
            then(
                text_order(qa, qb),
                then(opt_text_order(sa, sb), then(rules_order(oa, ob), opt_text_order(fa, fb))),
            ),
        ),
        (SelectorView::Selector(x), SelectorView::Selector(y)) => then(
            int_order(selector_order(x) as int, selector_order(y) as int),
            text_order(x, y),
        ),
        (SelectorView::Global(x, _), SelectorView::Global(y, _)) => if x == y {
            0
        } else if x.contains(':') && y.contains(':') {
            let ox = global_order(from_first_colon(x));
            let oy = global_order(from_first_colon(y));
            if ox == oy {
                text_order(x, y)
            } else {
                int_order(ox as int, oy as int)
            }
        } else if x.contains(':') {
            1
        } else if y.contains(':') {
            -1
        } else {
            text_order(x, y)
        },
        _ => int_order(variant_rank(a), variant_rank(b)),
    }
}

pub(crate) fn text_order_exec(a: &[char], b: &[char]) -> (r: i8)
    ensures
        r as int == text_order(a@, b@),
{
    let mut i: usize = 0;
    assert(a@.skip(0) == a@ && b@.skip(0) == b@);
    while i < a.len() && i < b.len()
        invariant
            i <= a@.len(),
            i <= b@.len(),
            text_order(a@, b@) == text_order(a@.skip(i as int), b@.skip(i as int)),
        decreases a@.len() - i,
    {
        assert(a@.skip(i as int)[0] == a@[i as int]);
        assert(b@.skip(i as int)[0] == b@[i as int]);
        if a[i] != b[i] {
            return if (a[i] as u32) < (b[i] as u32) {
                -1
            } else {
                1
            };
        }
        assert(a@.skip(i as int).drop_first() == a@.skip(i + 1));
        assert(b@.skip(i as int).drop_first() == b@.skip(i + 1));
        i = i + 1;
    }
    if i < a.len() {
        1
    } else if i < b.len() {
        -1
    } else {
        0
    }
}

pub(crate) fn str_order(a: &str, b: &str) -> (r: i8)
    ensures
        r as int == text_order(a@, b@),
{
    let x = chars_of(a);
    let y = chars_of(b);
    text_order_exec(&x, &y)
}

fn opt_order(a: &Option<String>, b: &Option<String>) -> (r: i8)
    ensures
        r as int == opt_text_order(opt_string(*a), opt_string(*b)),
{
    match (a, b) {
        (None, None) => 0,
        (None, Some(_)) => -1,
        (Some(_), None) => 1,
        (Some(x), Some(y)) => str_order(x.as_str(), y.as_str()),
    }
}

fn kind_rank_exec(k: AtRuleKind) -> (r: i8)
    ensures
        r as int == kind_rank(k),
{
    match k {
        AtRuleKind::Media => 0,
        AtRuleKind::Supports => 1,
        AtRuleKind::Container => 2,
        AtRuleKind::Layer => 3,
    }
}

fn small_order(a: i8, b: i8) -> (r: i8)
    ensures
        r as int == int_order(a as int, b as int),
{
    if a < b {
        -1
    } else if a > b {
        1
    } else {
        0
    }
}

fn rules_order_exec(a: &Vec<AtRule>, b: &Vec<AtRule>) -> (r: i8)
    ensures
        r as int == rules_order(rules_view(a@), rules_view(b@)),
{
    let ghost av = rules_view(a@);
    let ghost bv = rules_view(b@);
    let mut i: usize = 0;
    assert(av.skip(0) == av && bv.skip(0) == bv);
    while i < a.len() && i < b.len()
        invariant
            i <= a@.len(),
            i <= b@.len(),
            av == rules_view(a@),
            bv == rules_view(b@),
            rules_order(av, bv) == rules_order(av.skip(i as int), bv.skip(i as int)),
        decreases a@.len() - i,
    {
        assert(av.skip(i as int)[0] == av[i as int]);
        assert(bv.skip(i as int)[0] == bv[i as int]);
        let k = small_order(kind_rank_exec(a[i].kind), kind_rank_exec(b[i].kind));
        let o = if k != 0 {
            k
        } else {
            str_order(a[i].query.as_str(), b[i].query.as_str())
        };
        if o != 0 {
            return o;
        }
        assert(av.skip(i as int).drop_first() == av.skip(i + 1));
        assert(bv.skip(i as int).drop_first() == bv.skip(i + 1));
        i = i + 1;
    }
    if i < a.len() {
        1
    } else if i < b.len() {
        -1
    } else {
        0
    }
}

fn first_colon_tail(v: &Vec<char>) -> (r: Vec<char>)
    ensures
        r@ == from_first_colon(v@),
{
    let mut i: usize = 0;
    assert(v@.skip(0) == v@);
    while i < v.len() && v[i] != ':'
        invariant
            i <= v@.len(),
            from_first_colon(v@) == from_first_colon(v@.skip(i as int)),
        decreases v@.len() - i,
    {
        assert(v@.skip(i as int)[0] == v@[i as int]);
        assert(v@.skip(i as int).drop_first() == v@.skip(i + 1));
        i = i + 1;
    }
    let mut r: Vec<char> = Vec::new();
    crate::text::push_range(&mut r, v, i, v.len());
    assert(v@.subrange(i as int, v@.len() as int) == v@.skip(i as int));
    r
}

fn selector_order_value(a: &StyleSelector, b: &StyleSelector) -> (r: i8)
    ensures
        r as int == selector_rank_order(a@, b@),
{
    match (a, b) {
        (
            StyleSelector::At { kind: ka, query: qa, selector: sa, outer: oa, file: fa },
            StyleSelector::At { kind: kb, query: qb, selector: sb, outer: ob, file: fb },
        ) => {
            let k = small_order(kind_rank_exec(*ka), kind_rank_exec(*kb));
            if k != 0 {
                return k;
            }
            let q = str_order(qa.as_str(), qb.as_str());
            if q != 0 {
                return q;
            }
            let s = opt_order(sa, sb);
            if s != 0 {
                return s;
            }
            let o = rules_order_exec(oa, ob);
            if o != 0 {
                return o;
            }
            opt_order(fa, fb)
        },
        (StyleSelector::Selector(x), StyleSelector::Selector(y)) => {
            let ox = get_selector_order(x.as_str());
            let oy = get_selector_order(y.as_str());
            if ox < oy {
                -1
            } else if ox > oy {
                1
            } else {
                str_order(x.as_str(), y.as_str())
            }
        },
        (StyleSelector::Global(x, _), StyleSelector::Global(y, _)) => {
            let xv = chars_of(x.as_str());
            let yv = chars_of(y.as_str());
            if crate::text::chars_eq(&xv, &yv) {
                return 0;
            }
            let xc = crate::text::has_char(&xv, ':');
            let yc = crate::text::has_char(&yv, ':');
            if xc && yc {
                let xt = crate::text::string_from(&first_colon_tail(&xv));
                let yt = crate::text::string_from(&first_colon_tail(&yv));
                let ox = global_selector_order(xt.as_str());
                let oy = global_selector_order(yt.as_str());
                if ox == oy {
                    str_order(x.as_str(), y.as_str())
                } else if ox < oy {
                    -1
                } else {
                    1
                }
            } else if xc {
                1
            } else if yc {
                -1
            } else {
                str_order(x.as_str(), y.as_str())
            }
        },
        (StyleSelector::Global(..), _) => -1,
        (_, StyleSelector::Global(..)) => 1,
        (StyleSelector::Selector(_), _) => -1,
        (_, StyleSelector::Selector(_)) => 1,
    }
}

/// The ordering a number of [`selector_rank_order`] stands for.
pub open spec fn ordering_of(v: int) -> Ordering {
    if v < 0 {
        Ordering::Less
    } else if v > 0 {
        Ordering::Greater
    } else {
        Ordering::Equal
    }
}

impl StyleSelector {
    /// How this selector orders against `other` in a stylesheet.
    pub fn compare(&self, other: &Self) -> (r: Ordering)
        ensures
            r == ordering_of(selector_rank_order(self@, other@)),
    {
        let v = selector_order_value(self, other);
        if v < 0 {
            Ordering::Less
        } else if v > 0 {
            Ordering::Greater
        } else {
            Ordering::Equal
        }
    }
}

/// Swapping two texts negates their order.
pub proof fn lemma_text_order_antisym(a: Seq<char>, b: Seq<char>)
    ensures
        text_order(a, b) == -text_order(b, a),
    decreases a.len(),
{
    if a.len() > 0 && b.len() > 0 {
        if a[0] == b[0] {
            lemma_text_order_antisym(a.drop_first(), b.drop_first());
        } else {
            let (x, y) = (a[0], b[0]);
            vstd::utf8::char_u32_cast(x, x as u32);
            vstd::utf8::char_u32_cast(y, y as u32);
            assert((x as u32) != (y as u32));
        }
    }
}


proof fn lemma_rules_order_antisym(a: Seq<(AtRuleKind, Seq<char>)>, b: Seq<(AtRuleKind, Seq<char>)>)
    ensures
        rules_order(a, b) == -rules_order(b, a),
    decreases a.len(),
{
    if a.len() > 0 && b.len() > 0 {
        lemma_text_order_antisym(a[0].1, b[0].1);
        if rule_order(a[0], b[0]) == 0 {
            lemma_rules_order_antisym(a.drop_first(), b.drop_first());
        }
    }
}

/// Selectors are ordered consistently: swapping two selectors negates their
/// order, so `a` comes before `b` exactly when `b` comes after `a`, and a
/// selector is equal in order to itself.
pub proof fn law_selector_order_antisymmetric(a: SelectorView, b: SelectorView)
    ensures
        selector_rank_order(a, b) == -selector_rank_order(b, a),
        selector_rank_order(a, a) == 0,
{
    lemma_selector_order_antisym(a, b);
    lemma_selector_order_antisym(a, a);
}

proof fn lemma_selector_order_antisym(a: SelectorView, b: SelectorView)
    ensures
        selector_rank_order(a, b) == -selector_rank_order(b, a),
{
    match (a, b) {
        (
            SelectorView::At { kind: ka, query: qa, selector: sa, outer: oa, file: fa },
            SelectorView::At { kind: kb, query: qb, selector: sb, outer: ob, file: fb },
        ) => {
            lemma_text_order_antisym(qa, qb);
            lemma_rules_order_antisym(oa, ob);
            if let (Some(x), Some(y)) = (sa, sb) {
                lemma_text_order_antisym(x, y);
            }
            if let (Some(x), Some(y)) = (fa, fb) {
                lemma_text_order_antisym(x, y);
            }
        },
        (SelectorView::Selector(x), SelectorView::Selector(y)) => {
            lemma_text_order_antisym(x, y);
        },
        (SelectorView::Global(x, _), SelectorView::Global(y, _)) => {
            lemma_text_order_antisym(x, y);
        },
        _ => {},
    }
}

/// Text order is transitive.
pub proof fn lemma_text_order_trans(a: Seq<char>, b: Seq<char>, c: Seq<char>)
    requires
        text_order(a, b) <= 0,
        text_order(b, c) <= 0,
    ensures
        text_order(a, c) <= 0,
    decreases a.len(),
{
    if a.len() > 0 && b.len() > 0 && c.len() > 0 && a[0] == b[0] && b[0] == c[0] {
        lemma_text_order_trans(a.drop_first(), b.drop_first(), c.drop_first());
    }
}


/// Texts in order `0` are equal.
pub proof fn lemma_text_order_zero(a: Seq<char>, b: Seq<char>)
    requires
        text_order(a, b) == 0,
    ensures
        a == b,
    decreases a.len(),
{
    if a.len() > 0 && b.len() > 0 && a[0] == b[0] {
        lemma_text_order_zero(a.drop_first(), b.drop_first());
        assert(a == seq![a[0]] + a.drop_first());
        assert(b == seq![b[0]] + b.drop_first());
    }
}

/// What a comparison must satisfy on three values for lexicographic
/// combination: transitive, zero only between equal keys.
pub open spec fn order_facts(ab: int, bc: int, ac: int) -> bool {
    &&& (ab <= 0 && bc <= 0 ==> ac <= 0)
    &&& (ab < 0 && bc <= 0 ==> ac < 0)
    &&& (ab <= 0 && bc < 0 ==> ac < 0)
    &&& (ab == 0 ==> ac == bc)
    &&& (bc == 0 ==> ac == ab)
}

proof fn lemma_then_trans(p_ab: int, q_ab: int, p_bc: int, q_bc: int, p_ac: int, q_ac: int)
    requires
        order_facts(p_ab, p_bc, p_ac),
        p_ab == 0 && p_bc == 0 ==> order_facts(q_ab, q_bc, q_ac),
    ensures
        order_facts(then(p_ab, q_ab), then(p_bc, q_bc), then(p_ac, q_ac)),
{
}

proof fn lemma_text_order_facts(a: Seq<char>, b: Seq<char>, c: Seq<char>)
    ensures
        order_facts(text_order(a, b), text_order(b, c), text_order(a, c)),
{
    lemma_text_order_antisym(a, b);
    lemma_text_order_antisym(b, c);
    lemma_text_order_antisym(a, c);
    if text_order(a, b) <= 0 && text_order(b, c) <= 0 {
        lemma_text_order_trans(a, b, c);
    }
    if text_order(a, b) == 0 {
        lemma_text_order_zero(a, b);
    }
    if text_order(b, c) == 0 {
        lemma_text_order_zero(b, c);
    }
    if text_order(a, c) == 0 {
        lemma_text_order_zero(a, c);
    }
}

proof fn lemma_opt_text_order_facts(a: Option<Seq<char>>, b: Option<Seq<char>>, c: Option<Seq<char>>)
    ensures
        order_facts(opt_text_order(a, b), opt_text_order(b, c), opt_text_order(a, c)),
{
    if let (Some(x), Some(y), Some(z)) = (a, b, c) {
        lemma_text_order_facts(x, y, z);
    }
}

proof fn lemma_rule_order_facts(a: (AtRuleKind, Seq<char>), b: (AtRuleKind, Seq<char>), c: (AtRuleKind, Seq<char>))
    ensures
        order_facts(rule_order(a, b), rule_order(b, c), rule_order(a, c)),
        rule_order(a, b) == 0 ==> a == b,
{
    lemma_text_order_facts(a.1, b.1, c.1);
    if rule_order(a, b) == 0 {
        lemma_text_order_zero(a.1, b.1);
    }
}

proof fn lemma_rules_order_facts(
    a: Seq<(AtRuleKind, Seq<char>)>,
    b: Seq<(AtRuleKind, Seq<char>)>,
    c: Seq<(AtRuleKind, Seq<char>)>,
)
    ensures
        order_facts(rules_order(a, b), rules_order(b, c), rules_order(a, c)),
        rules_order(a, b) == 0 ==> a == b,
    decreases a.len(),
{
    lemma_rules_order_antisym(a, b);
    lemma_rules_order_antisym(b, c);
    lemma_rules_order_antisym(a, c);
    if a.len() > 0 && b.len() > 0 && c.len() > 0 {
        lemma_rule_order_facts(a[0], b[0], c[0]);
        lemma_rule_order_facts(b[0], c[0], a[0]);
        lemma_rule_order_facts(a[0], c[0], b[0]);
        lemma_rules_order_facts(a.drop_first(), b.drop_first(), c.drop_first());
        if rules_order(a, b) == 0 {
            assert(a == seq![a[0]] + a.drop_first());
            assert(b == seq![b[0]] + b.drop_first());
        }
    } else if a.len() > 0 && b.len() > 0 {
        lemma_rule_order_facts(a[0], b[0], a[0]);
        if rules_order(a, b) == 0 {
            lemma_rules_order_facts(a.drop_first(), b.drop_first(), a.drop_first());
            assert(a == seq![a[0]] + a.drop_first());
            assert(b == seq![b[0]] + b.drop_first());
        }
    }
}


proof fn lemma_int_order_facts(a: int, b: int, c: int)
    ensures
        order_facts(int_order(a, b), int_order(b, c), int_order(a, c)),
{
}

/// The colon rank of a global selector: with a pseudo part or without.
spec fn colon_rank(x: Seq<char>) -> int {
    if x.contains(':') {
        1
    } else {
        0
    }
}

/// The pseudo-class rank of a global selector with a pseudo part.
spec fn pseudo_rank(x: Seq<char>) -> int {
    if x.contains(':') {
        global_order(from_first_colon(x)) as int
    } else {
        0
    }
}

proof fn lemma_global_order_lex(x: Seq<char>, xf: Seq<char>, y: Seq<char>, yf: Seq<char>)
    ensures
        selector_rank_order(SelectorView::Global(x, xf), SelectorView::Global(y, yf)) == then(
            int_order(colon_rank(x), colon_rank(y)),
            then(int_order(pseudo_rank(x), pseudo_rank(y)), text_order(x, y)),
        ),
{
    lemma_text_order_antisym(x, x);
}

proof fn lemma_selector_order_facts(a: SelectorView, b: SelectorView, c: SelectorView)
    ensures
        order_facts(selector_rank_order(a, b), selector_rank_order(b, c), selector_rank_order(a, c)),
{
    match (a, b, c) {
        (
            SelectorView::At { kind: ka, query: qa, selector: sa, outer: oa, file: fa },
            SelectorView::At { kind: kb, query: qb, selector: sb, outer: ob, file: fb },
            SelectorView::At { kind: kc, query: qc, selector: sc, outer: oc, file: fc },
        ) => {
            lemma_rules_order_facts(oa, ob, oc);
            lemma_opt_text_order_facts(fa, fb, fc);
            lemma_then_trans(
                rules_order(oa, ob),
                opt_text_order(fa, fb),
                rules_order(ob, oc),
                opt_text_order(fb, fc),
                rules_order(oa, oc),
                opt_text_order(fa, fc),
            );
            lemma_opt_text_order_facts(sa, sb, sc);
            lemma_then_trans(
                opt_text_order(sa, sb),
                then(rules_order(oa, ob), opt_text_order(fa, fb)),
                opt_text_order(sb, sc),
                then(rules_order(ob, oc), opt_text_order(fb, fc)),
                opt_text_order(sa, sc),
                then(rules_order(oa, oc), opt_text_order(fa, fc)),
            );
            lemma_text_order_facts(qa, qb, qc);
            lemma_then_trans(
                text_order(qa, qb),
                then(opt_text_order(sa, sb), then(rules_order(oa, ob), opt_text_order(fa, fb))),
                text_order(qb, qc),
                then(opt_text_order(sb, sc), then(rules_order(ob, oc), opt_text_order(fb, fc))),
                text_order(qa, qc),
                then(opt_text_order(sa, sc), then(rules_order(oa, oc), opt_text_order(fa, fc))),
            );
            lemma_int_order_facts(kind_rank(ka), kind_rank(kb), kind_rank(kc));
            lemma_then_trans(
                int_order(kind_rank(ka), kind_rank(kb)),
                then(
                    text_order(qa, qb),
                    then(opt_text_order(sa, sb), then(rules_order(oa, ob), opt_text_order(fa, fb))),
                ),
                int_order(kind_rank(kb), kind_rank(kc)),
                then(
                    text_order(qb, qc),
                    then(opt_text_order(sb, sc), then(rules_order(ob, oc), opt_text_order(fb, fc))),
                ),
                int_order(kind_rank(ka), kind_rank(kc)),
                then(
                    text_order(qa, qc),
                    then(opt_text_order(sa, sc), then(rules_order(oa, oc), opt_text_order(fa, fc))),
                ),
            );
        },
        (SelectorView::Selector(x), SelectorView::Selector(y), SelectorView::Selector(z)) => {
            lemma_text_order_facts(x, y, z);
            lemma_int_order_facts(selector_order(x) as int, selector_order(y) as int, selector_order(z) as int);
            lemma_then_trans(
                int_order(selector_order(x) as int, selector_order(y) as int),
                text_order(x, y),
                int_order(selector_order(y) as int, selector_order(z) as int),
                text_order(y, z),
                int_order(selector_order(x) as int, selector_order(z) as int),
                text_order(x, z),
            );
        },
        (SelectorView::Global(x, xf), SelectorView::Global(y, yf), SelectorView::Global(z, zf)) => {
            lemma_global_order_lex(x, xf, y, yf);
            lemma_global_order_lex(y, yf, z, zf);
            lemma_global_order_lex(x, xf, z, zf);
            lemma_text_order_facts(x, y, z);
            lemma_int_order_facts(pseudo_rank(x), pseudo_rank(y), pseudo_rank(z));
            lemma_then_trans(
                int_order(pseudo_rank(x), pseudo_rank(y)),
                text_order(x, y),
                int_order(pseudo_rank(y), pseudo_rank(z)),
                text_order(y, z),
                int_order(pseudo_rank(x), pseudo_rank(z)),
                text_order(x, z),
            );
            lemma_int_order_facts(colon_rank(x), colon_rank(y), colon_rank(z));
            lemma_then_trans(
                int_order(colon_rank(x), colon_rank(y)),
                then(int_order(pseudo_rank(x), pseudo_rank(y)), text_order(x, y)),
                int_order(colon_rank(y), colon_rank(z)),
                then(int_order(pseudo_rank(y), pseudo_rank(z)), text_order(y, z)),
                int_order(colon_rank(x), colon_rank(z)),
                then(int_order(pseudo_rank(x), pseudo_rank(z)), text_order(x, z)),
            );
        },
        _ => {
            lemma_selector_order_antisym(a, b);
            lemma_selector_order_antisym(b, c);
            lemma_selector_order_antisym(a, c);
            lemma_selector_order_antisym(a, a);
            lemma_selector_order_antisym(b, b);
            lemma_selector_order_antisym(c, c);
        },
    }
}

/// Selector order is transitive: if `a` comes no later than `b` and `b` no
/// later than `c`, then `a` comes no later than `c`.
pub proof fn law_selector_order_transitive(a: SelectorView, b: SelectorView, c: SelectorView)
    requires
        selector_rank_order(a, b) <= 0,
        selector_rank_order(b, c) <= 0,
    ensures
        selector_rank_order(a, c) <= 0,
{
    lemma_selector_order_facts(a, b, c);
}

} // verus!
