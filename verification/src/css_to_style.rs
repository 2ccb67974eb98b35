//! CSS text to static styles: `property: value;` declarations, nested
//! `selector { ... }` blocks and `@media` / `@supports` / `@container`
//! blocks, each style under the selector its block puts it in.
use vstd::prelude::*;
use vstd::std_specs::hash::DefaultHasherAdditionalSpecFns;
use crate::at_rule::starts;
use crate::css_utils::index_from;
use crate::class_map::{assoc_set, index_of, lemma_index_of};
use crate::str_map::{insert_by_key, sorted_set, StrMap};
use crate::extract_style::{optimized_opt, selector_view, ExtractStaticStyle, StaticStyleView, ThemeTokenResolution};
use crate::optimize_multi_css_value::{is_multi_css_property, optimized_multi};
use crate::rm_css_comment::strip_comments;
use crate::selector_order::text_order;
use crate::style_selector::{AtRuleKind, SelectorView, StyleSelector};
use crate::text::trim;
use crate::utils::collapse_ws;
use crate::extract_style::{ExtractStyleProperty, StyleProperty, StylePropertyView};
use crate::naming::{keyframes_named, keyframes_to_keyframes_name, opt_seq, same_settings};
use crate::state::CssState;
use crate::text::{decimal, push_decimal};
use std::collections::hash_map::DefaultHasher;
use std::collections::BTreeMap;
use std::hash::Hash;
use std::hash::Hasher;

verus! {

/// The at-rules a CSS text is split by, in the order they are tried.
pub open spec fn at_rule_prefix(idx: int) -> Seq<char> {
    if idx == 0 {
        "@media"@
    } else if idx == 1 {
        "@supports"@
    } else {
        "@container"@
    }
}

/// The kind of the at-rule tried at `idx`.
pub open spec fn at_rule_kind(idx: int) -> AtRuleKind {
    if idx == 0 {
        AtRuleKind::Media
    } else if idx == 1 {
        AtRuleKind::Supports
    } else {
        AtRuleKind::Container
    }
}

/// The style a declaration gives: trimmed property and value (a multi-item
/// value optimized, an aspect-ratio one in lowest terms), under the selector with its whitespace collapsed.
pub open spec fn decl_style(p: Seq<char>, v: Seq<char>, level: u8, sel: Option<SelectorView>) -> StaticStyleView {
    StaticStyleView {
        property: p,
        value: crate::extract_style::static_value(
            p,
            if is_multi_css_property(p) {
                optimized_multi(v)
            } else {
                v
            },
        ),
        level,
        selector: optimized_opt(sel),
        style_order: None,
        layer: None,
        theme_token_resolution: ThemeTokenResolution::CssVariable,
    }
}

/// The styles of one `;`-separated segment: none when it is blank or has no
/// `:`, else the style of its declaration.
pub open spec fn segment_styles(seg: Seq<char>, level: u8, sel: Option<SelectorView>) -> Seq<StaticStyleView> {
    let t = trim(seg);
    let k = index_from(t, ':', 0);
    if t.len() == 0 || k >= t.len() {
        Seq::empty()
    } else {
        seq![decl_style(trim(t.take(k)), trim(t.skip(k + 1)), level, sel)]
    }
}

/// The styles of the segments of `s[start..]`, split at every `;`.
pub open spec fn decls_from(s: Seq<char>, i: int, start: int, level: u8, sel: Option<SelectorView>) -> Seq<
    StaticStyleView,
>
    decreases s.len() - i,
{
    if i < 0 || i >= s.len() {
        segment_styles(s.subrange(start, s.len() as int), level, sel)
    } else if s[i] == ';' {
        segment_styles(s.subrange(start, i), level, sel) + decls_from(s, i + 1, i + 1, level, sel)
    } else {
        decls_from(s, i + 1, start, level, sel)
    }
}

/// The styles of a block of declarations (comments dropped, whitespace
/// collapsed first).
pub open spec fn block_styles(css: Seq<char>, level: u8, sel: Option<SelectorView>) -> Seq<StaticStyleView> {
    decls_from(collapse_ws(strip_comments(css)), 0, 0, level, sel)
}

/// The views of a list of static styles.
pub open spec fn statics_view(v: Seq<ExtractStaticStyle>) -> Seq<StaticStyleView> {
    v.map_values(|s: ExtractStaticStyle| s@)
}

fn copy_opt(sel: &Option<StyleSelector>) -> (r: Option<StyleSelector>)
    ensures
        selector_view(r) == selector_view(*sel),
{
    match sel {
        Some(s) => Some(s.copy()),
        None => None,
    }
}

/// Appends the style of segment `v[lo..hi]`, if it has one.
fn push_segment_style(
    out: &mut Vec<ExtractStaticStyle>,
    v: &Vec<char>,
    lo: usize,
    hi: usize,
    level: u8,
    sel: &Option<StyleSelector>,
)
    requires
        lo <= hi <= v@.len(),
    ensures
        statics_view(final(out)@) == statics_view(old(out)@) + segment_styles(
            v@.subrange(lo as int, hi as int),
            level,
            selector_view(*sel),
        ),
{
    let ghost seg = v@.subrange(lo as int, hi as int);
    let (a, b) = crate::text::trim_bounds(v, lo, hi);
    let ghost t = v@.subrange(a as int, b as int);
    assert(t == trim(seg));
    let mut k = a;
    while k < b && v[k] != ':'
        invariant
            a <= k <= b <= v@.len(),
            t == v@.subrange(a as int, b as int),
            index_from(t, ':', 0) == index_from(t, ':', k - a),
        decreases b - k,
    {
        assert(t[k - a] == v@[k as int]);
        k = k + 1;
    }
    proof {
        if k < b {
            assert(t[k - a] == v@[k as int]);
        }
    }
    assert(index_from(t, ':', 0) == k - a);
    if a == b || k >= b {
        assert(statics_view(out@) =~= statics_view(old(out)@) + segment_styles(seg, level, selector_view(*sel)));
        return;
    }
    let (pa, pb) = crate::text::trim_bounds(v, a, k);
    let (va, vb) = crate::text::trim_bounds(v, k + 1, b);
    assert(t.take(k - a) == v@.subrange(a as int, k as int));
    assert(t.skip(k - a + 1) == v@.subrange(k + 1, b as int));
    let property = crate::text::string_of(v, pa, pb);
    let raw = crate::text::string_of(v, va, vb);
    let value = if crate::optimize_multi_css_value::check_multi_css_optimize(property.as_str()) {
        crate::optimize_multi_css_value::optimize_multi_css_value(raw.as_str())
    } else {
        raw
    };
    let style = ExtractStaticStyle::new(property.as_str(), value.as_str(), level, copy_opt(sel));
    let ghost before = out@;
    out.push(style);
    assert(statics_view(out@) =~= statics_view(before).push(style@));
}

/// The styles of a block of declarations: comments dropped and whitespace
/// collapsed, then each `property: value` between `;` gives a style under
/// `selector` (values kept as written, multi-item values optimized).
pub fn css_to_style_block(css: &str, level: u8, selector: &Option<StyleSelector>) -> (r: Vec<ExtractStaticStyle>)
    ensures
        statics_view(r@) == block_styles(css@, level, selector_view(*selector)),
{
    let cleaned = crate::rm_css_comment::rm_css_comment(css);
    let v = crate::text::chars_of(cleaned.as_str());
    let ghost sv = selector_view(*selector);
    let mut out: Vec<ExtractStaticStyle> = Vec::new();
    let mut start: usize = 0;
    let mut i: usize = 0;
    assert(statics_view(out@) =~= Seq::<StaticStyleView>::empty());
    while i < v.len()
        invariant
            start <= i <= v@.len(),
            sv == selector_view(*selector),
            decls_from(v@, 0, 0, level, sv) == statics_view(out@) + decls_from(v@, i as int, start as int, level, sv),
        decreases v@.len() - i,
    {
        if v[i] == ';' {
            let ghost before = statics_view(out@);
            push_segment_style(&mut out, &v, start, i, level, selector);
            assert(before + decls_from(v@, i as int, start as int, level, sv) =~= statics_view(out@)
                + decls_from(v@, i + 1, i + 1, level, sv));
            start = i + 1;
        }
        i = i + 1;
    }
    push_segment_style(&mut out, &v, start, v.len(), level, selector);
    out
}

/// `str::trim` never lengthens.
pub proof fn lemma_trim_len(s: Seq<char>)
    ensures
        trim(s).len() <= s.len(),
{
    lemma_trim_start_len(s);
    lemma_trim_end_len(crate::text::trim_start(s));
}

proof fn lemma_trim_start_len(s: Seq<char>)
    ensures
        crate::text::trim_start(s).len() <= s.len(),
    decreases s.len(),
{
    if s.len() > 0 {
        lemma_trim_start_len(s.drop_first());
    }
}

proof fn lemma_trim_end_len(s: Seq<char>)
    ensures
        crate::text::trim_end(s).len() <= s.len(),
    decreases s.len(),
{
    if s.len() > 0 {
        lemma_trim_end_len(s.drop_last());
    }
}

/// The pieces of `s[start..]` between the occurrences of `p` (left to
/// right, not overlapping), as `str::split` with a string pattern gives them.
pub open spec fn pieces_from(s: Seq<char>, p: Seq<char>, i: int, start: int) -> Seq<Seq<char>>
    decreases s.len() - i,
{
    if p.len() == 0 || i < 0 || i + p.len() > s.len() {
        seq![s.subrange(start, s.len() as int)]
    } else if s.subrange(i, i + p.len()) == p {
        seq![s.subrange(start, i)] + pieces_from(s, p, i + p.len(), i + p.len())
    } else {
        pieces_from(s, p, i + 1, start)
    }
}

/// The trimmed pieces that are not blank, in order.
pub open spec fn nonblank(ps: Seq<Seq<char>>) -> Seq<Seq<char>>
    decreases ps.len(),
{
    if ps.len() == 0 {
        Seq::empty()
    } else {
        nonblank(ps.drop_last()) + if trim(ps.last()).len() > 0 {
            seq![trim(ps.last())]
        } else {
            Seq::empty()
        }
    }
}

/// The non-blank trimmed pieces of `s` between occurrences of the at-rule
/// tried at `idx`.
pub open spec fn at_segments(s: Seq<char>, idx: int) -> Seq<Seq<char>> {
    nonblank(pieces_from(s, at_rule_prefix(idx), 0, 0))
}

/// The total length of the pieces, each counted with one separator.
pub open spec fn span(ps: Seq<Seq<char>>, plen: int) -> int
    decreases ps.len(),
{
    if ps.len() == 0 {
        0
    } else {
        span(ps.drop_last(), plen) + ps.last().len() + plen
    }
}

proof fn lemma_span_add(a: Seq<Seq<char>>, b: Seq<Seq<char>>, plen: int)
    ensures
        span(a + b, plen) == span(a, plen) + span(b, plen),
    decreases b.len(),
{
    if b.len() == 0 {
        assert(a + b == a);
    } else {
        lemma_span_add(a, b.drop_last(), plen);
        assert((a + b).drop_last() == a + b.drop_last());
        assert((a + b).last() == b.last());
    }
}

/// The pieces of `s[start..]` and their separators make up `s[start..]`.
proof fn lemma_pieces_span(s: Seq<char>, p: Seq<char>, i: int, start: int)
    requires
        p.len() > 0,
        0 <= start <= i <= s.len(),
    ensures
        span(pieces_from(s, p, i, start), p.len() as int) == s.len() - start + p.len(),
    decreases s.len() - i,
{
    let plen = p.len() as int;
    let none = Seq::<Seq<char>>::empty();
    assert(span(none, plen) == 0);
    if i + p.len() > s.len() {
        let one = seq![s.subrange(start, s.len() as int)];
        assert(one.drop_last() == none);
        assert(pieces_from(s, p, i, start) == one);
        assert(span(one, plen) == span(none, plen) + (s.len() - start) + plen);
    } else if s.subrange(i, i + p.len()) == p {
        lemma_pieces_span(s, p, i + p.len(), i + p.len());
        let one = seq![s.subrange(start, i)];
        let rest = pieces_from(s, p, i + p.len(), i + p.len());
        assert(one.drop_last() == none);
        assert(span(one, plen) == span(none, plen) + (i - start) + plen);
        assert(pieces_from(s, p, i, start) == one + rest);
        lemma_span_add(one, rest, plen);
    } else {
        lemma_pieces_span(s, p, i + 1, start);
        assert(pieces_from(s, p, i, start) == pieces_from(s, p, i + 1, start));
    }
}

/// Each non-blank piece is shorter than the total by one more piece and
/// separator whenever there are at least two.
proof fn lemma_nonblank_short(ps: Seq<Seq<char>>, plen: int)
    requires
        plen >= 0,
    ensures
        forall|k: int| 0 <= k < nonblank(ps).len() ==> (#[trigger] nonblank(ps)[k]).len() > 0,
        forall|k: int|
            0 <= k < nonblank(ps).len() ==> (#[trigger] nonblank(ps)[k]).len() + (if nonblank(ps).len() >= 2 {
                1 + plen
            } else {
                0
            }) <= span(ps, plen) - plen,
        span(ps, plen) >= 0,
    decreases ps.len(),
{
    if ps.len() > 0 {
        let qs = ps.drop_last();
        let x = ps.last();
        lemma_nonblank_short(qs, plen);
        lemma_trim_len(x);
        let nq = nonblank(qs);
        if trim(x).len() > 0 {
            let np = nonblank(ps);
            assert(np == nq + seq![trim(x)]);
            assert forall|k: int| 0 <= k < np.len() implies (#[trigger] np[k]).len() + (if np.len() >= 2 {
                1 + plen
            } else {
                0
            }) <= span(ps, plen) - plen by {
                if k < nq.len() {
                    assert(np[k] == nq[k]);
                } else {
                    assert(np[k] == trim(x));
                    if nq.len() > 0 {
                        assert(nq[0].len() > 0);
                    }
                }
            }
            assert forall|k: int| 0 <= k < np.len() implies (#[trigger] np[k]).len() > 0 by {
                if k < nq.len() {
                    assert(np[k] == nq[k]);
                }
            }
        } else {
            assert(nonblank(ps) == nq + Seq::<Seq<char>>::empty());
            assert(nonblank(ps) == nq);
        }
    }
}

/// Each at-rule piece, with its at-rule in front, is shorter than the text
/// it was cut from.
pub proof fn lemma_at_piece_shorter(s: Seq<char>, idx: int, k: int)
    requires
        0 <= idx < 3,
        at_segments(s, idx).len() >= 2,
        0 <= k < at_segments(s, idx).len(),
    ensures
        (at_rule_prefix(idx) + at_segments(s, idx)[k]).len() < s.len(),
{
    reveal_strlit("@media");
    reveal_strlit("@supports");
    reveal_strlit("@container");
    let p = at_rule_prefix(idx);
    lemma_pieces_span(s, p, 0, 0);
    lemma_nonblank_short(pieces_from(s, p, 0, 0), p.len() as int);
}

/// The first at-rule (in the order tried) that splits `s` into at least two
/// non-blank pieces.
pub open spec fn split_rule(s: Seq<char>) -> Option<int> {
    if at_segments(s, 0).len() >= 2 {
        Some(0)
    } else if at_segments(s, 1).len() >= 2 {
        Some(1)
    } else if at_segments(s, 2).len() >= 2 {
        Some(2)
    } else {
        None
    }
}

/// The positions of `c` in `s`, in order.
pub open spec fn positions(s: Seq<char>, c: char) -> Seq<int>
    decreases s.len(),
{
    if s.len() == 0 {
        Seq::empty()
    } else {
        positions(s.drop_last(), c) + if s.last() == c {
            seq![s.len() - 1]
        } else {
            Seq::empty()
        }
    }
}

/// The `i`-th `;`-separated part of `b` (the semicolons at `pos`).
pub open spec fn part_at(b: Seq<char>, pos: Seq<int>, i: int) -> Seq<char> {
    b.subrange(
        if i == 0 {
            0
        } else {
            pos[i - 1] + 1
        },
        if i < pos.len() {
            pos[i]
        } else {
            b.len() as int
        },
    )
}

/// A part that reads as a selector: no `:`, or it opens with `&` or `@`.
pub open spec fn selector_like(p: Seq<char>) -> bool {
    !p.contains(':') || (p.len() > 0 && (p[0] == '&' || p[0] == '@'))
}

/// The last part at or before `i` that reads as a selector (`pos.len() + 1`,
/// the number of parts, when none does).
pub open spec fn selector_part_index(b: Seq<char>, pos: Seq<int>, i: int) -> int
    decreases i + 1,
{
    if i < 0 {
        (pos.len() + 1) as int
    } else if selector_like(trim(part_at(b, pos, i))) {
        i
    } else {
        selector_part_index(b, pos, i - 1)
    }
}

/// The text before a `{`, split into the plain declarations that lead it and
/// the selector of the block: the selector starts at the last `;`-separated
/// part that reads as a selector.
pub open spec fn split_before(b: Seq<char>) -> (Seq<char>, Seq<char>) {
    let pos = positions(b, ';');
    if pos.len() == 0 {
        (Seq::empty(), b)
    } else {
        let k = selector_part_index(b, pos, pos.len() as int);
        if 1 <= k <= pos.len() {
            (trim(b.take(pos[k - 1])), trim(b.skip(pos[k - 1] + 1)))
        } else {
            (Seq::empty(), b)
        }
    }
}

/// `s` without its ` ` characters.
pub open spec fn without_spaces(s: Seq<char>) -> Seq<char>
    decreases s.len(),
{
    if s.len() == 0 {
        s
    } else {
        without_spaces(s.drop_last()) + if s.last() == ' ' {
            Seq::empty()
        } else {
            seq![s.last()]
        }
    }
}

/// `s` with every `and(` written `and (`.
pub open spec fn space_and(s: Seq<char>) -> Seq<char>
    decreases s.len(),
{
    if s.len() == 0 {
        s
    } else if starts(s, seq!['a', 'n', 'd', '(']) {
        seq!['a', 'n', 'd', ' ', '('] + space_and(s.skip(4))
    } else {
        seq![s[0]] + space_and(s.drop_first())
    }
}

/// The at-rule of a block selector that opens with one (tried in order).
pub open spec fn block_at_rule(sel: Seq<char>) -> Option<int> {
    if starts(sel, at_rule_prefix(0)) {
        Some(0)
    } else if starts(sel, at_rule_prefix(1)) {
        Some(1)
    } else if starts(sel, at_rule_prefix(2)) {
        Some(2)
    } else {
        None
    }
}

/// The selector of a nested block: inside an at-rule, the at-rule with the
/// block's selector (none for a bare `&`); else an at-rule block opens an
/// at-rule (its prelude without spaces), an empty selector keeps the outer
/// one, and any other selector is taken as it is.
pub open spec fn block_selector(outer: Option<SelectorView>, part: Seq<char>) -> Option<SelectorView> {
    let local = trim(part);
    match outer {
        Some(SelectorView::At { kind, query, outer: rules, file, .. }) => Some(
            SelectorView::At {
                kind,
                query,
                selector: if local == seq!['&'] {
                    None
                } else {
                    Some(local)
                },
                outer: rules,
                file,
            },
        ),
        _ => match block_at_rule(local) {
            Some(idx) => Some(
                SelectorView::At {
                    kind: at_rule_kind(idx),
                    query: space_and(without_spaces(local.skip(at_rule_prefix(idx).len() as int))),
                    selector: None,
                    outer: Seq::empty(),
                    file: None,
                },
            ),
            None => if local.len() == 0 {
                outer
            } else {
                Some(SelectorView::Selector(local))
            },
        },
    }
}

/// A nested block opened by `@media`, `@supports` or `@container` (outside
/// any at-rule) gives the at-rule of that kind: the kind is the keyword that
/// opened the block.
pub proof fn law_block_kind_from_keyword(outer: Option<SelectorView>, part: Seq<char>, kind: AtRuleKind)
    requires
        !(outer matches Some(SelectorView::At { .. })),
        kind == AtRuleKind::Media || kind == AtRuleKind::Supports || kind == AtRuleKind::Container,
        starts(trim(part), seq!['@'] + crate::style_selector::kind_name(kind)),
    ensures
        block_selector(outer, part) matches Some(SelectorView::At { kind: k, .. }) && k == kind,
{
    reveal_strlit("@media");
    reveal_strlit("@supports");
    reveal_strlit("@container");
    reveal_strlit("media");
    reveal_strlit("supports");
    reveal_strlit("container");
    let local = trim(part);
    let w = seq!['@'] + crate::style_selector::kind_name(kind);
    assert(local.take(w.len() as int) == w);
    assert(local[1] == w[1]);
    if kind == AtRuleKind::Media {
        assert(w =~= "@media"@);
    } else if kind == AtRuleKind::Supports {
        assert(w =~= "@supports"@);
        assert(!starts(local, at_rule_prefix(0))) by {
            if starts(local, at_rule_prefix(0)) {
                assert(local.take(6)[1] == local[1]);
            }
        }
    } else {
        assert(w =~= "@container"@);
        assert(!starts(local, at_rule_prefix(0))) by {
            if starts(local, at_rule_prefix(0)) {
                assert(local.take(6)[1] == local[1]);
            }
        }
        assert(!starts(local, at_rule_prefix(1))) by {
            if starts(local, at_rule_prefix(1)) {
                assert(local.take(9)[1] == local[1]);
            }
        }
    }
}

/// Where the block opened before `rest` closes: the `}` that balances it, or
/// else the first `}`, or else the end.
pub open spec fn close_from(rest: Seq<char>, i: int, depth: int) -> int
    decreases rest.len() - i,
{
    if i < 0 || i >= rest.len() {
        index_from(rest, '}', 0)
    } else if rest[i] == '{' {
        close_from(rest, i + 1, depth + 1)
    } else if rest[i] == '}' {
        if depth == 1 {
            i
        } else {
            close_from(rest, i + 1, depth - 1)
        }
    } else {
        close_from(rest, i + 1, depth)
    }
}

/// A stable insertion of a style into a list sorted by property.
pub open spec fn insert_by_property(sorted: Seq<StaticStyleView>, x: StaticStyleView) -> Seq<StaticStyleView>
    decreases sorted.len(),
{
    if sorted.len() == 0 {
        seq![x]
    } else if text_order(sorted.last().property, x.property) <= 0 {
        sorted.push(x)
    } else {
        insert_by_property(sorted.drop_last(), x).push(sorted.last())
    }
}

/// The styles sorted by property (equal properties keep their order).
pub open spec fn sort_by_property(s: Seq<StaticStyleView>) -> Seq<StaticStyleView>
    decreases s.len(),
{
    if s.len() == 0 {
        s
    } else {
        insert_by_property(sort_by_property(s.drop_last()), s.last())
    }
}

/// The styles of a CSS text: split at every at-rule of the first kind that
/// occurs twice, each piece handled on its own; otherwise the styles of its
/// blocks and declarations, sorted by property.
pub open spec fn styles_of(s: Seq<char>, level: u8, sel: Option<SelectorView>) -> Seq<StaticStyleView>
    decreases s.len(), 3int, 0int,
{
    match split_rule(s) {
        Some(idx) => at_parts_styles(s, idx, level, sel, 0),
        None => sort_by_property(
            if s.contains('{') {
                brace_styles(s, level, sel)
            } else {
                block_styles(s, level, sel)
            },
        ),
    }
}

/// The styles of the at-rule pieces of `s` from the `k`-th on, each piece
/// with its at-rule put back in front (where the at-rule tried at `idx`
/// splits `s` in two or more pieces; empty elsewhere).
pub open spec fn at_parts_styles(s: Seq<char>, idx: int, level: u8, sel: Option<SelectorView>, k: int) -> Seq<
    StaticStyleView,
>
    decreases s.len(), 2int, at_segments(s, idx).len() - k,
{
    let segs = at_segments(s, idx);
    if k < 0 || k >= segs.len() || idx < 0 || idx >= 3 || segs.len() < 2 {
        Seq::empty()
    } else {
        proof {
            lemma_at_piece_shorter(s, idx, k);
        }
        styles_of(at_rule_prefix(idx) + segs[k], level, sel) + at_parts_styles(s, idx, level, sel, k + 1)
    }
}

/// The styles of a text with blocks, from its first `{` on: the plain
/// declarations before the block's selector, the block's own styles under
/// its selector, then whatever follows the block.
pub open spec fn brace_styles(s: Seq<char>, level: u8, sel: Option<SelectorView>) -> Seq<StaticStyleView>
    decreases s.len(), 1int, 0int,
{
    let start = index_from(s, '{', 0);
    if start < 0 || start >= s.len() {
        Seq::empty()
    } else {
        let (plain, part) = split_before(trim(s.take(start)));
        let pre = if plain.len() > 0 {
            block_styles(plain, level, sel)
        } else {
            Seq::empty()
        };
        let rest = s.skip(start + 1);
        let end = close_from(rest, 0, 1);
        let block = rest.take(end);
        let nsel = block_selector(sel, part);
        let inner = if 0 <= end <= rest.len() && block.contains('{') {
            styles_of(block, level, nsel)
        } else {
            block_styles(block, level, nsel)
        };
        let closing = start + 1 + end;
        let tail = if closing + 1 < s.len() {
            let rem = trim(s.skip(closing + 1));
            proof {
                lemma_trim_len(s.skip(closing + 1));
            }
            if rem.len() == 0 {
                Seq::empty()
            } else if rem.contains('{') && closing >= 0 {
                brace_styles(rem, level, sel)
            } else {
                block_styles(rem, level, sel)
            }
        } else {
            Seq::empty()
        };
        pre + inner + tail
    }
}

/// The texts of a list of character vectors.
pub open spec fn texts(v: Seq<Vec<char>>) -> Seq<Seq<char>> {
    v.map_values(|x: Vec<char>| x@)
}

proof fn lemma_nonblank_add(a: Seq<Seq<char>>, b: Seq<Seq<char>>)
    ensures
        nonblank(a + b) == nonblank(a) + nonblank(b),
    decreases b.len(),
{
    if b.len() == 0 {
        assert(a + b == a);
        assert(nonblank(b) == Seq::<Seq<char>>::empty());
        assert(nonblank(a) + nonblank(b) == nonblank(a));
    } else {
        lemma_nonblank_add(a, b.drop_last());
        assert((a + b).drop_last() == a + b.drop_last());
        assert((a + b).last() == b.last());
    }
}

proof fn lemma_nonblank_one(p: Seq<char>)
    ensures
        nonblank(seq![p]) == (if trim(p).len() > 0 {
            seq![trim(p)]
        } else {
            Seq::<Seq<char>>::empty()
        }),
{
    let x = seq![p];
    assert(x.drop_last() == Seq::<Seq<char>>::empty());
    assert(x.last() == p);
    assert(nonblank(x.drop_last()) == Seq::<Seq<char>>::empty());
    assert(Seq::<Seq<char>>::empty() + (if trim(p).len() > 0 {
        seq![trim(p)]
    } else {
        Seq::<Seq<char>>::empty()
    }) == (if trim(p).len() > 0 {
        seq![trim(p)]
    } else {
        Seq::<Seq<char>>::empty()
    }));
}

fn sub_chars(v: &Vec<char>, lo: usize, hi: usize) -> (r: Vec<char>)
    requires
        lo <= hi <= v@.len(),
    ensures
        r@ == v@.subrange(lo as int, hi as int),
{
    let mut r: Vec<char> = Vec::new();
    crate::text::push_range(&mut r, v, lo, hi);
    r
}

fn trimmed_sub(v: &Vec<char>, lo: usize, hi: usize) -> (r: Vec<char>)
    requires
        lo <= hi <= v@.len(),
    ensures
        r@ == trim(v@.subrange(lo as int, hi as int)),
{
    let (a, b) = crate::text::trim_bounds(v, lo, hi);
    sub_chars(v, a, b)
}

fn occurs_at(v: &Vec<char>, i: usize, p: &Vec<char>) -> (r: bool)
    requires
        i <= v@.len(),
    ensures
        r == (i + p@.len() <= v@.len() && v@.subrange(i as int, i + p@.len()) == p@),
{
    crate::text::starts_with_at(v, i, p)
}

/// The non-blank trimmed pieces of `v` between occurrences of `p`.
fn nonblank_pieces(v: &Vec<char>, p: &Vec<char>) -> (r: Vec<Vec<char>>)
    requires
        p@.len() > 0,
    ensures
        texts(r@) == nonblank(pieces_from(v@, p@, 0, 0)),
{
    let mut out: Vec<Vec<char>> = Vec::new();
    let mut start: usize = 0;
    let mut i: usize = 0;
    assert(texts(out@) =~= Seq::<Seq<char>>::empty());
    while i < v.len()
        invariant
            start <= i <= v@.len(),
            p@.len() > 0,
            nonblank(pieces_from(v@, p@, 0, 0)) == texts(out@) + nonblank(pieces_from(v@, p@, i as int, start as int)),
        decreases v@.len() - i,
    {
        if occurs_at(v, i, p) {
            let piece = trimmed_sub(v, start, i);
            let ghost rest = pieces_from(v@, p@, i + p@.len(), i + p@.len());
            proof {
                lemma_nonblank_one(v@.subrange(start as int, i as int));
                lemma_nonblank_add(seq![v@.subrange(start as int, i as int)], rest);
                assert(seq![v@.subrange(start as int, i as int)].drop_last() == Seq::<Seq<char>>::empty());
            }
            let ghost before = texts(out@);
            if piece.len() > 0 {
                out.push(piece);
                assert(texts(out@) =~= before + nonblank(seq![v@.subrange(start as int, i as int)]));
            } else {
                assert(nonblank(seq![v@.subrange(start as int, i as int)]) =~= Seq::<Seq<char>>::empty());
            }
            assert(before + nonblank(pieces_from(v@, p@, i as int, start as int)) =~= texts(out@) + nonblank(rest));
            i = i + p.len();
            start = i;
        } else {
            i = i + 1;
        }
    }
    let piece = trimmed_sub(v, start, v.len());
    proof {
        lemma_nonblank_one(v@.subrange(start as int, v@.len() as int));
        assert(pieces_from(v@, p@, i as int, start as int) == seq![v@.subrange(start as int, v@.len() as int)]);
        assert(seq![v@.subrange(start as int, v@.len() as int)].drop_last() == Seq::<Seq<char>>::empty());
    }
    let ghost before = texts(out@);
    if piece.len() > 0 {
        out.push(piece);
        assert(texts(out@) =~= before + nonblank(seq![v@.subrange(start as int, v@.len() as int)]));
    } else {
        assert(nonblank(seq![v@.subrange(start as int, v@.len() as int)]) =~= Seq::<Seq<char>>::empty());
        assert(texts(out@) =~= before + nonblank(seq![v@.subrange(start as int, v@.len() as int)]));
    }
    out
}

/// The integers of a list of indices.
pub open spec fn ints(v: Seq<usize>) -> Seq<int> {
    v.map_values(|x: usize| x as int)
}

proof fn lemma_positions(s: Seq<char>, c: char)
    ensures
        forall|j: int| 0 <= j < positions(s, c).len() ==> 0 <= #[trigger] positions(s, c)[j] < s.len()
            && s[positions(s, c)[j]] == c,
        forall|j: int, k: int| 0 <= j < k < positions(s, c).len() ==> positions(s, c)[j] < positions(s, c)[k],
    decreases s.len(),
{
    if s.len() > 0 {
        lemma_positions(s.drop_last(), c);
        let p0 = positions(s.drop_last(), c);
        assert forall|j: int| 0 <= j < p0.len() implies s[p0[j]] == s.drop_last()[p0[j]] by {}
    }
}

fn semicolons(b: &Vec<char>) -> (r: Vec<usize>)
    ensures
        ints(r@) == positions(b@, ';'),
{
    let mut r: Vec<usize> = Vec::new();
    let mut i: usize = 0;
    assert(ints(r@) =~= positions(b@.take(0), ';'));
    while i < b.len()
        invariant
            i <= b@.len(),
            ints(r@) == positions(b@.take(i as int), ';'),
        decreases b@.len() - i,
    {
        assert(b@.take(i + 1).drop_last() == b@.take(i as int));
        assert(b@.take(i + 1).last() == b@[i as int]);
        let ghost before = ints(r@);
        if b[i] == ';' {
            r.push(i);
            assert(ints(r@) =~= before.push(i as int));
        } else {
            assert(ints(r@) =~= before + Seq::<int>::empty());
        }
        i = i + 1;
    }
    assert(b@.take(i as int) == b@);
    r
}

fn selector_like_exec(p: &Vec<char>) -> (r: bool)
    ensures
        r == selector_like(p@),
{
    !crate::text::has_char(p, ':') || (p.len() > 0 && (p[0] == '&' || p[0] == '@'))
}

/// The plain declarations and the block selector before a `{`.
fn split_before_exec(b: &Vec<char>) -> (r: (Vec<char>, Vec<char>))
    ensures
        (r.0@, r.1@) == split_before(b@),
{
    let pos = semicolons(b);
    let ghost pv = positions(b@, ';');
    proof {
        lemma_positions(b@, ';');
    }
    if pos.len() == 0 {
        return (Vec::new(), sub_chars(b, 0, b.len()));
    }
    let n = b.len();
    let mut i: usize = pos.len();
    let mut found: Option<usize> = None;
    loop
        invariant
            n == b@.len(),
            i <= pos@.len(),
            pv == ints(pos@),
            pv == positions(b@, ';'),
            forall|j: int| 0 <= j < pv.len() ==> 0 <= #[trigger] pv[j] < b@.len(),
            forall|j: int, k: int| 0 <= j < k < pv.len() ==> pv[j] < pv[k],
            found.is_none() ==> selector_part_index(b@, pv, pv.len() as int) == selector_part_index(b@, pv, i as int),
            found matches Some(k) ==> k <= pos@.len() && selector_part_index(b@, pv, pv.len() as int) == k,
        ensures
            found matches Some(k) ==> k <= pos@.len() && selector_part_index(b@, pv, pv.len() as int) == k,
            found.is_none() ==> selector_part_index(b@, pv, pv.len() as int) == pv.len() + 1,
        decreases i + 1, if found.is_none() { 1int } else { 0int },
    {
        if found.is_some() {
            break;
        }
        proof {
            if i > 0 {
                assert(pv[i - 1] == pos@[i - 1] as int);
            }
            if i < pos@.len() {
                assert(pv[i as int] == pos@[i as int] as int);
            }
        }
        let lo: usize = if i == 0 {
            0
        } else {
            pos[i - 1] + 1
        };
        let hi: usize = if i < pos.len() {
            pos[i]
        } else {
            b.len()
        };
        proof {
            if i > 0 && i < pos.len() {
                assert(pv[i - 1] < pv[i as int]);
            }
        }
        let part = trimmed_sub(b, lo, hi);
        assert(part@ == trim(part_at(b@, pv, i as int)));
        if selector_like_exec(&part) {
            found = Some(i);
        } else if i == 0 {
            assert(selector_part_index(b@, pv, 0) == selector_part_index(b@, pv, -1));
            break;
        } else {
            i = i - 1;
        }
    }
    match found {
        Some(k) => if 1 <= k && k <= pos.len() {
            assert(pv[k - 1] == pos@[k - 1] as int);
            let boundary = pos[k - 1];
            (trimmed_sub(b, 0, boundary), trimmed_sub(b, boundary + 1, b.len()))
        } else {
            (Vec::new(), sub_chars(b, 0, b.len()))
        },
        None => (Vec::new(), sub_chars(b, 0, b.len())),
    }
}

fn without_spaces_exec(v: &Vec<char>, lo: usize) -> (r: Vec<char>)
    requires
        lo <= v@.len(),
    ensures
        r@ == without_spaces(v@.skip(lo as int)),
{
    let ghost s = v@.skip(lo as int);
    let mut out: Vec<char> = Vec::new();
    let mut i = lo;
    assert(s.take(0) == Seq::<char>::empty());
    while i < v.len()
        invariant
            lo <= i <= v@.len(),
            s == v@.skip(lo as int),
            out@ == without_spaces(s.take(i - lo)),
        decreases v@.len() - i,
    {
        assert(s.take(i - lo + 1).drop_last() == s.take(i - lo));
        assert(s.take(i - lo + 1).last() == v@[i as int]);
        if v[i] != ' ' {
            out.push(v[i]);
        } else {
            assert(out@ + Seq::<char>::empty() == out@);
        }
        i = i + 1;
    }
    assert(s.take(i - lo) == s);
    out
}

fn space_and_exec(v: &Vec<char>) -> (r: Vec<char>)
    ensures
        r@ == space_and(v@),
{
    let pat: Vec<char> = vec!['a', 'n', 'd', '('];
    assert(pat@ == seq!['a', 'n', 'd', '(']);
    let mut out: Vec<char> = Vec::new();
    let mut i: usize = 0;
    assert(v@.skip(0) == v@);
    while i < v.len()
        invariant
            i <= v@.len(),
            pat@ == seq!['a', 'n', 'd', '('],
            space_and(v@) == out@ + space_and(v@.skip(i as int)),
        decreases v@.len() - i,
    {
        let ghost t = v@.skip(i as int);
        if crate::text::starts_with_at(v, i, &pat) {
            assert(t.take(4) == v@.subrange(i as int, i + 4));
            assert(starts(t, seq!['a', 'n', 'd', '(']));
            assert(t.skip(4) == v@.skip(i + 4));
            let ghost before = out@;
            out.push('a');
            out.push('n');
            out.push('d');
            out.push(' ');
            out.push('(');
            assert(out@ == before + seq!['a', 'n', 'd', ' ', '(']);
            assert(before + (seq!['a', 'n', 'd', ' ', '('] + space_and(v@.skip(i + 4))) =~= out@ + space_and(v@.skip(i + 4)));
            i = i + 4;
        } else {
            proof {
                if starts(t, seq!['a', 'n', 'd', '(']) {
                    assert(t.take(4) == v@.subrange(i as int, i + 4));
                }
            }
            assert(t[0] == v@[i as int]);
            assert(t.drop_first() == v@.skip(i + 1));
            let ghost before = out@;
            out.push(v[i]);
            assert(before + (seq![t[0]] + space_and(t.drop_first())) =~= out@ + space_and(v@.skip(i + 1)));
            i = i + 1;
        }
    }
    assert(v@.skip(i as int) == Seq::<char>::empty());
    out
}

fn at_prefix_exec(idx: usize) -> (r: Vec<char>)
    requires
        idx < 3,
    ensures
        r@ == at_rule_prefix(idx as int),
{
    if idx == 0 {
        crate::text::chars_of("@media")
    } else if idx == 1 {
        crate::text::chars_of("@supports")
    } else {
        crate::text::chars_of("@container")
    }
}

fn at_kind_exec(idx: usize) -> (r: AtRuleKind)
    ensures
        r == at_rule_kind(idx as int),
{
    if idx == 0 {
        AtRuleKind::Media
    } else if idx == 1 {
        AtRuleKind::Supports
    } else {
        AtRuleKind::Container
    }
}

/// The selector of a nested block (see [`block_selector`]).
fn block_selector_exec(outer: &Option<StyleSelector>, part: &Vec<char>) -> (r: Option<StyleSelector>)
    ensures
        selector_view(r) == block_selector(selector_view(*outer), part@),
{
    let local = trimmed_sub(part, 0, part.len());
    assert(part@.subrange(0, part@.len() as int) == part@);
    match outer {
        Some(StyleSelector::At { kind, query, outer: rules, file, .. }) => {
            let amp = local.len() == 1 && local[0] == '&';
            proof {
                if amp {
                    assert(local@ =~= seq!['&']);
                }
            }
            Some(
                StyleSelector::At {
                    kind: *kind,
                    query: query.clone(),
                    selector: if amp {
                        None
                    } else {
                        Some(crate::text::string_from(&local))
                    },
                    outer: crate::style_selector::clone_rules(rules),
                    file: crate::style_selector::clone_opt(file),
                },
            )
        },
        _ => {
            let mut idx: usize = 0;
            while idx < 3
                invariant
                    idx <= 3,
                    local@ == trim(part@),
                    match selector_view(*outer) {
                        Some(SelectorView::At { .. }) => false,
                        _ => true,
                    },
                    forall|j: int| 0 <= j < idx ==> !starts(local@, at_rule_prefix(j)),
                decreases 3 - idx,
            {
                let p = at_prefix_exec(idx);
                if crate::text::starts_with_at(&local, 0, &p) {
                    assert(local@.subrange(0, p@.len() as int) == local@.take(p@.len() as int));
                    assert(block_at_rule(local@) == Some(idx as int));
                    let bare = without_spaces_exec(&local, p.len());
                    let q = space_and_exec(&bare);
                    let rules: Vec<crate::style_selector::AtRule> = Vec::new();
                    assert(crate::style_selector::rules_view(rules@) =~= Seq::<(AtRuleKind, Seq<char>)>::empty());
                    return Some(
                        StyleSelector::At {
                            kind: at_kind_exec(idx),
                            query: crate::text::string_from(&q),
                            selector: None,
                            outer: rules,
                            file: None,
                        },
                    );
                }
                proof {
                    if starts(local@, at_rule_prefix(idx as int)) {
                        assert(local@.subrange(0, p@.len() as int) == local@.take(p@.len() as int));
                    }
                }
                idx = idx + 1;
            }
            assert(block_at_rule(local@).is_none());
            if local.len() == 0 {
                copy_opt(outer)
            } else {
                Some(StyleSelector::Selector(crate::text::string_from(&local)))
            }
        },
    }
}

/// Where the block opened before `rest` closes (see [`close_from`]).
fn close_exec(rest: &Vec<char>) -> (r: usize)
    ensures
        r as int == close_from(rest@, 0, 1),
        r <= rest@.len(),
{
    let mut open: usize = 0;
    let mut i: usize = 0;
    while i < rest.len()
        invariant
            i <= rest@.len(),
            open <= i,
            close_from(rest@, 0, 1) == close_from(rest@, i as int, open + 1),
        decreases rest@.len() - i,
    {
        if rest[i] == '{' {
            open = open + 1;
        } else if rest[i] == '}' {
            if open == 0 {
                return i;
            }
            open = open - 1;
        }
        i = i + 1;
    }
    let mut k: usize = 0;
    while k < rest.len() && rest[k] != '}'
        invariant
            k <= rest@.len(),
            index_from(rest@, '}', 0) == index_from(rest@, '}', k as int),
        decreases rest@.len() - k,
    {
        k = k + 1;
    }
    k
}

proof fn lemma_insert_at(s: Seq<StaticStyleView>, x: StaticStyleView, j: int)
    requires
        0 <= j <= s.len(),
        forall|m: int| j <= m < s.len() ==> text_order((#[trigger] s[m]).property, x.property) > 0,
        j == 0 || text_order(s[j - 1].property, x.property) <= 0,
    ensures
        insert_by_property(s, x) == s.take(j).push(x) + s.skip(j),
    decreases s.len() - j,
{
    if j == s.len() {
        assert(s.take(j) == s);
        assert(s.skip(j) == Seq::<StaticStyleView>::empty());
        if s.len() > 0 {
            assert(s.last() == s[j - 1]);
        }
        assert(s.take(j).push(x) + s.skip(j) =~= s.push(x));
    } else {
        let d = s.drop_last();
        assert(text_order(s.last().property, x.property) > 0);
        assert forall|m: int| j <= m < d.len() implies text_order((#[trigger] d[m]).property, x.property) > 0 by {
            assert(d[m] == s[m]);
        }
        if j > 0 {
            assert(d[j - 1] == s[j - 1]);
        }
        lemma_insert_at(d, x, j);
        assert(d.take(j) == s.take(j));
        assert((d.take(j).push(x) + d.skip(j)).push(s.last()) =~= s.take(j).push(x) + s.skip(j));
    }
}

fn insert_sorted(out: &mut Vec<ExtractStaticStyle>, x: ExtractStaticStyle)
    ensures
        statics_view(final(out)@) == insert_by_property(statics_view(old(out)@), x@),
{
    let ghost sv = statics_view(out@);
    let mut j = out.len();
    while j > 0 && crate::selector_order::str_order(out[j - 1].property.as_str(), x.property.as_str()) > 0
        invariant
            j <= out@.len(),
            sv == statics_view(out@),
            forall|m: int| j <= m < sv.len() ==> text_order((#[trigger] sv[m]).property, x@.property) > 0,
        decreases j,
    {
        assert(sv[j - 1] == out@[j - 1]@);
        j = j - 1;
    }
    proof {
        if j > 0 {
            assert(sv[j - 1] == out@[j - 1]@);
        }
        lemma_insert_at(sv, x@, j as int);
    }
    out.insert(j, x);
    assert(statics_view(out@) =~= sv.take(j as int).push(x@) + sv.skip(j as int));
}

fn sort_styles(v: Vec<ExtractStaticStyle>) -> (r: Vec<ExtractStaticStyle>)
    ensures
        statics_view(r@) == sort_by_property(statics_view(v@)),
{
    let ghost orig = statics_view(v@);
    let total = v.len();
    let mut rest = v;
    let mut out: Vec<ExtractStaticStyle> = Vec::new();
    let mut k: usize = 0;
    assert(statics_view(out@) =~= sort_by_property(orig.take(0)));
    assert(statics_view(rest@) =~= orig.skip(0));
    while rest.len() > 0
        invariant
            k <= orig.len(),
            orig.len() == total,
            k + rest@.len() == orig.len(),
            statics_view(rest@) == orig.skip(k as int),
            statics_view(out@) == sort_by_property(orig.take(k as int)),
        decreases rest@.len(),
    {
        let ghost before_rest = rest@;
        assert(statics_view(before_rest)[0] == before_rest[0]@);
        let x = rest.remove(0);
        assert(rest@ == before_rest.drop_first());
        assert(orig.skip(k as int)[0] == x@);
        assert(statics_view(rest@) =~= statics_view(before_rest).drop_first());
        assert(orig.skip(k as int).drop_first() =~= orig.skip(k + 1));
        assert(statics_view(rest@) =~= orig.skip(k + 1));
        assert(orig.take(k + 1).drop_last() == orig.take(k as int));
        assert(orig.take(k + 1).last() == x@);
        insert_sorted(&mut out, x);
        k = k + 1;
    }
    assert(orig.skip(k as int).len() == 0);
    assert(orig.take(k as int) == orig);
    out
}

fn block_exec(v: &Vec<char>, level: u8, sel: &Option<StyleSelector>) -> (r: Vec<ExtractStaticStyle>)
    ensures
        statics_view(r@) == block_styles(v@, level, selector_view(*sel)),
{
    let s = crate::text::string_from(v);
    css_to_style_block(s.as_str(), level, sel)
}

fn append_styles(out: &mut Vec<ExtractStaticStyle>, more: Vec<ExtractStaticStyle>)
    ensures
        statics_view(final(out)@) == statics_view(old(out)@) + statics_view(more@),
{
    let mut m = more;
    out.append(&mut m);
    assert(statics_view(out@) =~= statics_view(old(out)@) + statics_view(more@));
}

fn concat_chars(a: &Vec<char>, b: &Vec<char>) -> (r: Vec<char>)
    ensures
        r@ == a@ + b@,
{
    let mut r: Vec<char> = Vec::new();
    crate::text::push_all(&mut r, a);
    crate::text::push_all(&mut r, b);
    r
}

fn styles_exec(s: &Vec<char>, level: u8, sel: &Option<StyleSelector>) -> (r: Vec<ExtractStaticStyle>)
    ensures
        statics_view(r@) == styles_of(s@, level, selector_view(*sel)),
    decreases s@.len(), 3int, 0int,
{
    let ghost sv = selector_view(*sel);
    let mut idx: usize = 0;
    while idx < 3
        invariant
            idx <= 3,
            sv == selector_view(*sel),
            forall|j: int| 0 <= j < idx ==> at_segments(s@, j).len() < 2,
        decreases 3 - idx,
    {
        let p = at_prefix_exec(idx);
        proof {
            reveal_strlit("@media");
            reveal_strlit("@supports");
            reveal_strlit("@container");
        }
        let segs = nonblank_pieces(s, &p);
        if segs.len() >= 2 {
            assert(split_rule(s@) == Some(idx as int));
            let mut out: Vec<ExtractStaticStyle> = Vec::new();
            let mut k: usize = 0;
            assert(statics_view(out@) =~= Seq::<StaticStyleView>::empty());
            while k < segs.len()
                invariant
                    k <= segs@.len(),
                    idx < 3,
                    p@ == at_rule_prefix(idx as int),
                    texts(segs@) == at_segments(s@, idx as int),
                    at_segments(s@, idx as int).len() >= 2,
                    sv == selector_view(*sel),
                    at_parts_styles(s@, idx as int, level, sv, 0) == statics_view(out@) + at_parts_styles(
                        s@,
                        idx as int,
                        level,
                        sv,
                        k as int,
                    ),
                decreases segs@.len() - k,
            {
                let t = concat_chars(&p, &segs[k]);
                assert(texts(segs@)[k as int] == segs@[k as int]@);
                let ghost before = statics_view(out@);
                proof {
                    lemma_at_piece_shorter(s@, idx as int, k as int);
                }
                let part = styles_exec(&t, level, sel);
                append_styles(&mut out, part);
                assert(before + at_parts_styles(s@, idx as int, level, sv, k as int) =~= statics_view(out@)
                    + at_parts_styles(s@, idx as int, level, sv, k + 1));
                k = k + 1;
            }
            assert(at_parts_styles(s@, idx as int, level, sv, k as int) == Seq::<StaticStyleView>::empty());
            assert(statics_view(out@) + Seq::<StaticStyleView>::empty() == statics_view(out@));
            return out;
        }
        idx = idx + 1;
    }
    assert(split_rule(s@).is_none());
    let unsorted = if crate::text::has_char(s, '{') {
        brace_exec(s, level, sel)
    } else {
        block_exec(s, level, sel)
    };
    sort_styles(unsorted)
}

fn brace_exec(s: &Vec<char>, level: u8, sel: &Option<StyleSelector>) -> (r: Vec<ExtractStaticStyle>)
    ensures
        statics_view(r@) == brace_styles(s@, level, selector_view(*sel)),
    decreases s@.len(), 1int, 0int,
{
    let ghost sv = selector_view(*sel);
    let n = s.len();
    let mut start: usize = 0;
    while start < n && s[start] != '{'
        invariant
            start <= n,
            n == s@.len(),
            index_from(s@, '{', 0) == index_from(s@, '{', start as int),
        decreases n - start,
    {
        start = start + 1;
    }
    if start >= n {
        return Vec::new();
    }
    assert(index_from(s@, '{', 0) == start);
    let before = trimmed_sub(s, 0, start);
    assert(s@.subrange(0, start as int) == s@.take(start as int));
    let (plain, part) = split_before_exec(&before);
    let mut out: Vec<ExtractStaticStyle> = if plain.len() > 0 {
        block_exec(&plain, level, sel)
    } else {
        Vec::new()
    };
    let ghost pre = statics_view(out@);
    let rest = sub_chars(s, start + 1, n);
    assert(rest@ == s@.skip(start + 1));
    let end = close_exec(&rest);
    let block = sub_chars(&rest, 0, end);
    assert(block@ == rest@.take(end as int));
    let nsel = block_selector_exec(sel, &part);
    let inner = if crate::text::has_char(&block, '{') {
        styles_exec(&block, level, &nsel)
    } else {
        block_exec(&block, level, &nsel)
    };
    append_styles(&mut out, inner);
    let ghost mid = statics_view(out@);
    let closing = start + 1 + end;
    if n - closing > 1 {
        let rem = trimmed_sub(s, closing + 1, n);
        assert(s@.subrange(closing + 1, n as int) == s@.skip(closing + 1));
        proof {
            lemma_trim_len(s@.skip(closing + 1));
        }
        if rem.len() == 0 {
            assert(statics_view(out@) =~= mid + Seq::<StaticStyleView>::empty());
        } else if crate::text::has_char(&rem, '{') {
            let tail = brace_exec(&rem, level, sel);
            append_styles(&mut out, tail);
        } else {
            let tail = block_exec(&rem, level, sel);
            append_styles(&mut out, tail);
        }
    } else {
        assert(statics_view(out@) =~= mid + Seq::<StaticStyleView>::empty());
    }
    out
}

/// The static styles of a CSS text under `selector` (see [`styles_of`]):
/// declarations, nested blocks under their selectors, and `@media`,
/// `@supports`, `@container` blocks under their at-rules. Values are kept as
/// written (multi-item values optimized); the styles of a text without
/// repeated at-rules come sorted by property, equal properties in source
/// order.
pub fn css_to_style(css: &str, level: u8, selector: &Option<StyleSelector>) -> (r: Vec<ExtractStaticStyle>)
    ensures
        statics_view(r@) == styles_of(css@, level, selector_view(*selector)),
{
    let v = crate::text::chars_of(css);
    styles_exec(&v, level, selector)
}

/// The keyframes of a `@keyframes` body in order: each `key { ... }` with
/// the styles of its block; parsing stops at a `{` that is never closed.
pub open spec fn keyframe_entries(s: Seq<char>) -> Seq<(Seq<char>, Seq<StaticStyleView>)>
    decreases s.len(),
{
    let start = index_from(s, '{', 0);
    if start < 0 || start >= s.len() {
        Seq::empty()
    } else {
        let rest = s.skip(start + 1);
        let end = index_from(rest, '}', 0);
        if end < 0 || end >= rest.len() {
            Seq::empty()
        } else {
            seq![(trim(s.take(start)), styles_of(rest.take(end), 0, None))] + keyframe_entries(rest.skip(end + 1))
        }
    }
}

/// An association list with the entries set one after another (a later
/// entry for a key replaces an earlier one).
pub open spec fn set_all<V>(m: Seq<(Seq<char>, V)>, es: Seq<(Seq<char>, V)>) -> Seq<(Seq<char>, V)>
    decreases es.len(),
{
    if es.len() == 0 {
        m
    } else {
        set_all(sorted_set(m, es[0].0, es[0].1), es.drop_first())
    }
}

/// The styles of each keyframe of a map of keyframes.
pub open spec fn keyframes_view(m: Seq<(Seq<char>, Vec<ExtractStaticStyle>)>) -> Seq<(Seq<char>, Seq<StaticStyleView>)> {
    m.map_values(|e: (Seq<char>, Vec<ExtractStaticStyle>)| (e.0, statics_view(e.1@)))
}

proof fn lemma_index_of_view(m: Seq<(Seq<char>, Vec<ExtractStaticStyle>)>, k: Seq<char>)
    ensures
        index_of(keyframes_view(m), k) == index_of(m, k),
    decreases m.len(),
{
    if m.len() > 0 {
        assert(keyframes_view(m).drop_last() == keyframes_view(m.drop_last()));
        lemma_index_of_view(m.drop_last(), k);
    }
}

proof fn lemma_view_insert_by_key(m: Seq<(Seq<char>, Vec<ExtractStaticStyle>)>, k: Seq<char>, v: Vec<ExtractStaticStyle>)
    ensures
        keyframes_view(insert_by_key(m, (k, v))) == insert_by_key(keyframes_view(m), (k, statics_view(v@))),
    decreases m.len(),
{
    if m.len() == 0 {
        assert(keyframes_view(seq![(k, v)]) =~= seq![(k, statics_view(v@))]);
    } else {
        assert(keyframes_view(m).drop_last() =~= keyframes_view(m.drop_last()));
        assert(keyframes_view(m).last() == (m.last().0, statics_view(m.last().1@)));
        if text_order(m.last().0, k) > 0 {
            lemma_view_insert_by_key(m.drop_last(), k, v);
            assert(keyframes_view(insert_by_key(m.drop_last(), (k, v)).push(m.last())) =~= keyframes_view(
                insert_by_key(m.drop_last(), (k, v)),
            ).push(keyframes_view(m).last()));
        } else {
            assert(keyframes_view(m.push((k, v))) =~= keyframes_view(m).push((k, statics_view(v@))));
        }
    }
}

proof fn lemma_view_sorted_set(m: Seq<(Seq<char>, Vec<ExtractStaticStyle>)>, k: Seq<char>, v: Vec<ExtractStaticStyle>)
    ensures
        keyframes_view(sorted_set(m, k, v)) == sorted_set(keyframes_view(m), k, statics_view(v@)),
{
    lemma_index_of_view(m, k);
    match index_of(m, k) {
        Some(i) => {
            lemma_index_of(m, k);
            assert(keyframes_view(m.update(i, (k, v))) =~= keyframes_view(m).update(i, (k, statics_view(v@))));
        },
        None => {
            lemma_view_insert_by_key(m, k, v);
        },
    }
}

/// The keyframes of a `@keyframes` body: each key with the styles of its
/// block (a repeated key keeps its last block), the keys in order.
pub fn keyframes_to_keyframes_style(keyframes: &str) -> (r: StrMap<Vec<ExtractStaticStyle>>)
    ensures
        r.wf(),
        keyframes_view(r@) == set_all(Seq::empty(), keyframe_entries(keyframes@)),
{
    let v = crate::text::chars_of(keyframes);
    let mut map: StrMap<Vec<ExtractStaticStyle>> = StrMap::new();
    let mut input: Vec<char> = sub_chars(&v, 0, v.len());
    assert(v@.subrange(0, v@.len() as int) == v@);
    assert(keyframes_view(map@) =~= Seq::<(Seq<char>, Seq<StaticStyleView>)>::empty());
    loop
        invariant
            map.wf(),
            set_all(Seq::empty(), keyframe_entries(keyframes@)) == set_all(keyframes_view(map@), keyframe_entries(input@)),
        ensures
            map.wf(),
            set_all(Seq::empty(), keyframe_entries(keyframes@)) == keyframes_view(map@),
        decreases input@.len(),
    {
        let n = input.len();
        let mut start: usize = 0;
        while start < n && input[start] != '{'
            invariant
                start <= n,
                n == input@.len(),
                index_from(input@, '{', 0) == index_from(input@, '{', start as int),
            decreases n - start,
        {
            start = start + 1;
        }
        if start >= n {
            assert(keyframe_entries(input@) == Seq::<(Seq<char>, Seq<StaticStyleView>)>::empty());
            assert(set_all(keyframes_view(map@), keyframe_entries(input@)) == keyframes_view(map@));
            break;
        }
        let rest = sub_chars(&input, start + 1, n);
        assert(rest@ == input@.skip(start + 1));
        let m = rest.len();
        let mut end: usize = 0;
        while end < m && rest[end] != '}'
            invariant
                end <= m,
                m == rest@.len(),
                index_from(rest@, '}', 0) == index_from(rest@, '}', end as int),
            decreases m - end,
        {
            end = end + 1;
        }
        if end >= m {
            assert(keyframe_entries(input@) == Seq::<(Seq<char>, Seq<StaticStyleView>)>::empty());
            assert(set_all(keyframes_view(map@), keyframe_entries(input@)) == keyframes_view(map@));
            break;
        }
        let key = trimmed_sub(&input, 0, start);
        assert(input@.subrange(0, start as int) == input@.take(start as int));
        let block = sub_chars(&rest, 0, end);
        assert(block@ == rest@.take(end as int));
        let styles = styles_exec(&block, 0, &None);
        let ks = crate::text::string_from(&key);
        let ghost before = map@;
        let ghost e = (key@, statics_view(styles@));
        proof {
            lemma_view_sorted_set(before, key@, styles);
            assert(keyframe_entries(input@) == seq![e] + keyframe_entries(rest@.skip(end + 1)));
            assert((seq![e] + keyframe_entries(rest@.skip(end + 1)))[0] == e);
            assert((seq![e] + keyframe_entries(rest@.skip(end + 1))).drop_first() == keyframe_entries(rest@.skip(end + 1)));
        }
        map.insert_sorted(ks.as_str(), styles);
        input = sub_chars(&rest, end + 1, m);
        assert(input@ == rest@.skip(end + 1));
    }
    map
}

/// The keyframes of an animation: each keyframe key with its styles.
#[derive(Debug, PartialEq, Eq)]
pub struct ExtractKeyframes {
    pub keyframes: StrMap<Vec<ExtractStaticStyle>>,
}

/// The writes `Hash::hash` of a `BTreeMap` from keyframe key to styles makes
/// into a hasher: a function of the entries and of the width of `usize`
/// (the map's length, each list's length and each enum discriminant go in as
/// machine-sized integers).
pub uninterp spec fn keyframes_hash_writes(entries: Seq<(Seq<char>, Seq<StaticStyleView>)>, usize_bits: u32) -> Seq<
    Seq<u8>,
>;

/// `Hash::hash` of the keyframes, as a `BTreeMap` from key to styles (its
/// entries in key order, a later entry replacing an earlier one of the same
/// key), into `state`. What it writes is named by `keyframes_hash_writes`.
#[verifier::external_body]
fn hash_keyframes_into(entries: &Vec<(Vec<char>, Vec<ExtractStaticStyle>)>, state: &mut DefaultHasher)
    ensures
        final(state)@ == old(state)@ + keyframes_hash_writes(keyframes_view(crate::str_map::key_views(entries@)), usize::BITS),
{
    let map: BTreeMap<String, &Vec<ExtractStaticStyle>> = entries.iter().map(|(k, v)| (k.iter().collect(), v)).collect();
    map.hash(state);
}

/// The decimal digits of `value`.
pub fn write_u64(value: u64) -> (r: String)
    ensures
        r@ == decimal(value as nat),
{
    let mut digits: Vec<char> = Vec::new();
    push_decimal(&mut digits, value);
    crate::text::string_from(&digits)
}

/// The hash of keyframes with the default hasher.
pub open spec fn keyframes_hash(entries: Seq<(Seq<char>, Seq<StaticStyleView>)>) -> u64 {
    DefaultHasher::spec_finish(Seq::<Seq<u8>>::empty() + keyframes_hash_writes(entries, usize::BITS))
}

/// Naming keyframes whose hash is `h` leaves state `after` and gives name `r`.
pub open spec fn keyframes_hash_named(
    before: CssState,
    after: CssState,
    h: u64,
    filename: Option<Seq<char>>,
    r: Seq<char>,
) -> bool {
    keyframes_named(before, after, decimal(h as nat), filename, r)
}

/// The class of keyframes whose hash is `hash`: the keyframes name of its
/// decimal digits.
pub fn keyframes_class(st: &mut CssState, hash: u64, filename: Option<&str>) -> (r: StyleProperty)
    requires
        old(st).wf(),
    ensures
        final(st).wf(),
        same_settings(*final(st), *old(st)),
        match r@ {
            StylePropertyView::ClassName(n) => keyframes_hash_named(*old(st), *final(st), hash, opt_seq(filename), n),
            _ => false,
        },
{
    let key = write_u64(hash);
    StyleProperty::ClassName(keyframes_to_keyframes_name(st, key.as_str(), filename))
}

impl ExtractStyleProperty for ExtractKeyframes {
    /// The class of the keyframes: the keyframes name of their hash's
    /// decimal digits (see [`keyframes_class`]).
    fn extract(&self, st: &mut CssState, filename: Option<&str>) -> (r: StyleProperty)
        ensures
            match r@ {
                StylePropertyView::ClassName(n) => keyframes_hash_named(
                    *old(st),
                    *final(st),
                    keyframes_hash(keyframes_view(self.keyframes@)),
                    opt_seq(filename),
                    n,
                ),
                _ => false,
            },
    {
        let mut hasher = DefaultHasher::new();
        hash_keyframes_into(self.keyframes.entries(), &mut hasher);
        let h = hasher.finish();
        keyframes_class(st, h, filename)
    }
}

/// Whether the styles are in property order.
pub open spec fn sorted_by_property(s: Seq<StaticStyleView>) -> bool {
    forall|i: int, j: int| 0 <= i < j < s.len() ==> text_order(#[trigger] s[i].property, #[trigger] s[j].property) <= 0
}

proof fn lemma_insert_sorted(sorted: Seq<StaticStyleView>, x: StaticStyleView)
    requires
        sorted_by_property(sorted),
    ensures
        sorted_by_property(insert_by_property(sorted, x)),
        insert_by_property(sorted, x).len() == sorted.len() + 1,
        forall|k: int|
            0 <= k < insert_by_property(sorted, x).len() ==> #[trigger] insert_by_property(sorted, x)[k] == x
                || sorted.contains(insert_by_property(sorted, x)[k]),
    decreases sorted.len(),
{
    let r = insert_by_property(sorted, x);
    if sorted.len() == 0 {
    } else if text_order(sorted.last().property, x.property) <= 0 {
        assert forall|i: int, j: int| 0 <= i < j < r.len() implies text_order(
            #[trigger] r[i].property,
            #[trigger] r[j].property,
        ) <= 0 by {
            if j == r.len() - 1 && i < j {
                if i < sorted.len() - 1 {
                    crate::selector_order::lemma_text_order_trans(sorted[i].property, sorted.last().property, x.property);
                }
            }
        }
        assert forall|k: int| 0 <= k < r.len() implies #[trigger] r[k] == x || sorted.contains(r[k]) by {
            if k < sorted.len() {
                assert(r[k] == sorted[k]);
            }
        }
    } else {
        let front = sorted.drop_last();
        let last = sorted.last();
        assert(sorted_by_property(front)) by {
            assert forall|i: int, j: int| 0 <= i < j < front.len() implies text_order(
                #[trigger] front[i].property,
                #[trigger] front[j].property,
            ) <= 0 by {
                assert(front[i] == sorted[i] && front[j] == sorted[j]);
            }
        }
        lemma_insert_sorted(front, x);
        let inner = insert_by_property(front, x);
        crate::selector_order::lemma_text_order_antisym(last.property, x.property);
        assert forall|k: int| 0 <= k < inner.len() implies text_order(#[trigger] inner[k].property, last.property) <= 0 by {
            if inner[k] != x {
                let j = choose|j: int| 0 <= j < front.len() && front[j] == inner[k];
                assert(front[j] == sorted[j]);
                assert(text_order(sorted[j].property, sorted[sorted.len() - 1].property) <= 0);
            }
        }
        assert forall|i: int, j: int| 0 <= i < j < r.len() implies text_order(
            #[trigger] r[i].property,
            #[trigger] r[j].property,
        ) <= 0 by {
            if j == r.len() - 1 {
                assert(r[i] == inner[i]);
                assert(text_order(inner[i].property, last.property) <= 0);
            } else {
                assert(r[i] == inner[i] && r[j] == inner[j]);
            }
        }
        assert forall|k: int| 0 <= k < r.len() implies #[trigger] r[k] == x || sorted.contains(r[k]) by {
            if k == r.len() - 1 {
                assert(r[k] == sorted[sorted.len() - 1]);
            } else {
                assert(r[k] == inner[k]);
                if inner[k] != x {
                    let j = choose|j: int| 0 <= j < front.len() && front[j] == inner[k];
                    assert(sorted[j] == front[j]);
                }
            }
        }
    }
}

/// Sorting by property gives styles in property order.
pub proof fn lemma_sort_sorted(s: Seq<StaticStyleView>)
    ensures
        sorted_by_property(sort_by_property(s)),
        sort_by_property(s).len() == s.len(),
    decreases s.len(),
{
    if s.len() > 0 {
        lemma_sort_sorted(s.drop_last());
        lemma_insert_sorted(sort_by_property(s.drop_last()), s.last());
    }
}

/// The styles of a text that no at-rule splits come out in property order.
pub proof fn law_styles_in_property_order(s: Seq<char>, level: u8, sel: Option<SelectorView>)
    requires
        split_rule(s).is_none(),
    ensures
        sorted_by_property(styles_of(s, level, sel)),
{
    let unsorted = if s.contains('{') {
        brace_styles(s, level, sel)
    } else {
        block_styles(s, level, sel)
    };
    assert(styles_of(s, level, sel) == sort_by_property(unsorted));
    lemma_sort_sorted(unsorted);
}

} // verus!
