//! Selectors a style is emitted under: plain selectors with `&` standing for
//! the class, global selectors, and at-rules (`@media`, `@supports`,
//! `@container`, `@layer`) that may enclose a selector.
use vstd::prelude::*;
use crate::at_rule::{
    combine_media_queries, combine_spec, media_shorthand_query, normalize, normalize_query, shorthand,
    starts, MediaCombination, MediaFold,
};
use crate::text::{chars_of, contains_chars, contains_seq, has_char, push_all, push_char, push_str, starts_with_at, str_eq, string_from};
use crate::utils::{camel, camel_chars, collapse_whitespace, collapse_ws, kebab, kebab_chars};

verus! {

/// The kind of an at-rule.
#[derive(Debug, PartialEq, Eq, Structural, Clone, Copy, Hash, PartialOrd, Ord, Default)]
pub enum AtRuleKind {
    #[default]
    Media,
    Supports,
    Container,
    Layer,
}

/// The name of an at-rule kind, as written after `@`.
pub open spec fn kind_name(k: AtRuleKind) -> Seq<char> {
    match k {
        AtRuleKind::Media => "media"@,
        AtRuleKind::Supports => "supports"@,
        AtRuleKind::Container => "container"@,
        AtRuleKind::Layer => "layer"@,
    }
}

impl AtRuleKind {
    /// The at-rule's name, as written after `@`.
    pub fn as_str(&self) -> (r: &'static str)
        ensures
            r@ == kind_name(*self),
    {
        match self {
            AtRuleKind::Media => "media",
            AtRuleKind::Supports => "supports",
            AtRuleKind::Container => "container",
            AtRuleKind::Layer => "layer",
        }
    }

    /// The kind named `value`, which must be one of the four names.
    pub fn from_name(value: &str) -> (r: AtRuleKind)
        requires
            value@ == "media"@ || value@ == "supports"@ || value@ == "container"@ || value@ == "layer"@,
        ensures
            kind_name(r) == value@,
    {
        if str_eq(value, "media") {
            AtRuleKind::Media
        } else if str_eq(value, "supports") {
            AtRuleKind::Supports
        } else if str_eq(value, "container") {
            AtRuleKind::Container
        } else {
            AtRuleKind::Layer
        }
    }
}

/// An at-rule that encloses another: its kind and prelude.
#[derive(Debug, PartialEq, Eq, Clone, Hash, PartialOrd, Ord)]
pub struct AtRule {
    pub kind: AtRuleKind,
    pub query: String,
}

/// The kinds and preludes of a list of at-rules.
pub open spec fn rules_view(v: Seq<AtRule>) -> Seq<(AtRuleKind, Seq<char>)> {
    v.map_values(|r: AtRule| (r.kind, r.query@))
}

/// Where a style is emitted.
#[derive(Debug, PartialEq, Eq, Clone, Hash)]
pub enum StyleSelector {
    At {
        kind: AtRuleKind,
        query: String,
        selector: Option<String>,
        /// At-rules enclosing this one, outermost first. Only set when the
        /// rules cannot be folded into a single `@media` query.
        outer: Vec<AtRule>,
        /// Source file of a `globalCss` rule, so re-extracting that file drops it.
        file: Option<String>,
    },
    Selector(String),
    /// A global selector and its source file.
    Global(String, String),
}

/// The mathematical value of a [`StyleSelector`].
pub enum SelectorView {
    At {
        kind: AtRuleKind,
        query: Seq<char>,
        selector: Option<Seq<char>>,
        outer: Seq<(AtRuleKind, Seq<char>)>,
        file: Option<Seq<char>>,
    },
    Selector(Seq<char>),
    Global(Seq<char>, Seq<char>),
}

/// The text of an optional string.
pub open spec fn opt_string(o: Option<String>) -> Option<Seq<char>> {
    match o {
        Some(s) => Some(s@),
        None => None,
    }
}

impl View for StyleSelector {
    type V = SelectorView;

    open spec fn view(&self) -> SelectorView {
        match self {
            StyleSelector::At { kind, query, selector, outer, file } => SelectorView::At {
                kind: *kind,
                query: query@,
                selector: opt_string(*selector),
                outer: rules_view(outer@),
                file: opt_string(*file),
            },
            StyleSelector::Selector(s) => SelectorView::Selector(s@),
            StyleSelector::Global(s, f) => SelectorView::Global(s@, f@),
        }
    }
}

/// Pseudo-elements, written after `::` rather than `:`.
pub open spec fn is_double_pseudo(p: Seq<char>) -> bool {
    p == "after"@ ||
    p == "backdrop"@ ||
    p == "before"@ ||
    p == "checkmark"@ ||
    p == "cue"@ ||
    p == "cue-region"@ ||
    p == "details-content"@ ||
    p == "file-selector-button"@ ||
    p == "first-letter"@ ||
    p == "first-line"@ ||
    p == "grammar-error"@ ||
    p == "marker"@ ||
    p == "picker-icon"@ ||
    p == "placeholder"@ ||
    p == "scroll-marker"@ ||
    p == "scroll-marker-group"@ ||
    p == "selection"@ ||
    p == "spelling-error"@ ||
    p == "target-text"@ ||
    p == "view-transition"@
}

/// The separator before a pseudo name: `::` for pseudo-elements, else `:`.
pub open spec fn separator(p: Seq<char>) -> Seq<char> {
    if is_double_pseudo(p) {
        seq![':', ':']
    } else {
        seq![':']
    }
}

/// The CSS pseudo-elements a style key can name.
pub open spec fn css_pseudo_element(p: Seq<char>) -> bool {
    let names: Seq<Seq<char>> = seq![
        "after"@,
        "backdrop"@,
        "before"@,
        "checkmark"@,
        "cue"@,
        "cue-region"@,
        "details-content"@,
        "file-selector-button"@,
        "first-letter"@,
        "first-line"@,
        "grammar-error"@,
        "marker"@,
        "picker-icon"@,
        "placeholder"@,
        "scroll-marker"@,
        "scroll-marker-group"@,
        "selection"@,
        "spelling-error"@,
        "target-text"@,
        "view-transition"@,
    ];
    names.contains(p)
}

/// A pseudo-element is written after `::`, anything else after `:`.
pub proof fn law_pseudo_elements_double_colon(p: Seq<char>)
    ensures
        css_pseudo_element(p) ==> separator(p) == seq![':', ':'],
        !css_pseudo_element(p) ==> separator(p) == seq![':'],
{
    let names: Seq<Seq<char>> = seq![
        "after"@,
        "backdrop"@,
        "before"@,
        "checkmark"@,
        "cue"@,
        "cue-region"@,
        "details-content"@,
        "file-selector-button"@,
        "first-letter"@,
        "first-line"@,
        "grammar-error"@,
        "marker"@,
        "picker-icon"@,
        "placeholder"@,
        "scroll-marker"@,
        "scroll-marker-group"@,
        "selection"@,
        "spelling-error"@,
        "target-text"@,
        "view-transition"@,
    ];
    if css_pseudo_element(p) {
        let i = choose|i: int| 0 <= i < names.len() && names[i] == p;
        assert(names[i] == p);
    } else {
        assert(names[0] == "after"@);
        assert(names[1] == "backdrop"@);
        assert(names[2] == "before"@);
        assert(names[3] == "checkmark"@);
        assert(names[4] == "cue"@);
        assert(names[5] == "cue-region"@);
        assert(names[6] == "details-content"@);
        assert(names[7] == "file-selector-button"@);
        assert(names[8] == "first-letter"@);
        assert(names[9] == "first-line"@);
        assert(names[10] == "grammar-error"@);
        assert(names[11] == "marker"@);
        assert(names[12] == "picker-icon"@);
        assert(names[13] == "placeholder"@);
        assert(names[14] == "scroll-marker"@);
        assert(names[15] == "scroll-marker-group"@);
        assert(names[16] == "selection"@);
        assert(names[17] == "spelling-error"@);
        assert(names[18] == "target-text"@);
        assert(names[19] == "view-transition"@);
    }
}

/// A name of lower-case letters and `-` is its own kebab case, has no
/// whitespace to collapse and no `&`.
proof fn lemma_plain_name(p: Seq<char>)
    requires
        forall|j: int| 0 <= j < p.len() ==> ('a' <= #[trigger] p[j] && p[j] <= 'z') || p[j] == '-',
    ensures
        collapse_ws(p) == p,
        kebab(p) == p,
        !p.contains('&'),
    decreases p.len(),
{
    if p.len() > 0 {
        lemma_plain_name(p.drop_last());
        assert(p.drop_last().push(p.last()) == p);
        assert(!crate::text::is_ascii_upper(p.last()));
    }
    assert(!crate::utils::needs_collapse(p)) by {
        if p.len() > 0 {
            assert(!crate::text::is_ascii_ws(p[p.len() - 1]));
        }
    }
}

/// A style key naming a pseudo-element selects it after `::`:
/// `StyleSelector::from_name(p)` is `&::p`.
pub proof fn law_from_name_pseudo_element(p: Seq<char>)
    requires
        css_pseudo_element(p),
    ensures
        selector_from_name(p) == SelectorView::Selector(seq!['&', ':', ':'] + p),
{
    reveal_strlit("after");
    reveal_strlit("backdrop");
    reveal_strlit("before");
    reveal_strlit("checkmark");
    reveal_strlit("cue");
    reveal_strlit("cue-region");
    reveal_strlit("details-content");
    reveal_strlit("file-selector-button");
    reveal_strlit("first-letter");
    reveal_strlit("first-line");
    reveal_strlit("grammar-error");
    reveal_strlit("marker");
    reveal_strlit("picker-icon");
    reveal_strlit("placeholder");
    reveal_strlit("scroll-marker");
    reveal_strlit("scroll-marker-group");
    reveal_strlit("selection");
    reveal_strlit("spelling-error");
    reveal_strlit("target-text");
    reveal_strlit("view-transition");
    reveal_strlit("all");
    reveal_strlit("contrast-less");
    reveal_strlit("contrast-more");
    reveal_strlit("forced-colors");
    reveal_strlit("landscape");
    reveal_strlit("motion-reduce");
    reveal_strlit("motion-safe");
    reveal_strlit("portrait");
    reveal_strlit("print");
    reveal_strlit("screen");
    reveal_strlit("group-");
    reveal_strlit("theme-");
    let names: Seq<Seq<char>> = seq![
        "after"@,
        "backdrop"@,
        "before"@,
        "checkmark"@,
        "cue"@,
        "cue-region"@,
        "details-content"@,
        "file-selector-button"@,
        "first-letter"@,
        "first-line"@,
        "grammar-error"@,
        "marker"@,
        "picker-icon"@,
        "placeholder"@,
        "scroll-marker"@,
        "scroll-marker-group"@,
        "selection"@,
        "spelling-error"@,
        "target-text"@,
        "view-transition"@,
    ];
    let i = choose|i: int| 0 <= i < names.len() && names[i] == p;
    assert(names[i] == p);
    assert(!starts(p, "group-"@) && !starts(p, "theme-"@) && shorthand(p).is_none()) by {
        if i == 0 {
            assert(p == "after"@);
            assert("after"@[0] != "print"@[0]);
        } else if i == 1 {
            assert(p == "backdrop"@);
            assert("backdrop"@[0] != "portrait"@[0]);
            assert("backdrop"@[0] != "group-"@[0]);
            assert("backdrop"@.take(6)[0] == "backdrop"@[0]);
            assert("backdrop"@[0] != "theme-"@[0]);
            assert("backdrop"@.take(6)[0] == "backdrop"@[0]);
        } else if i == 2 {
            assert(p == "before"@);
            assert("before"@[0] != "screen"@[0]);
            assert("before"@[0] != "group-"@[0]);
            assert("before"@.take(6)[0] == "before"@[0]);
            assert("before"@[0] != "theme-"@[0]);
            assert("before"@.take(6)[0] == "before"@[0]);
        } else if i == 3 {
            assert(p == "checkmark"@);
            assert("checkmark"@[0] != "landscape"@[0]);
            assert("checkmark"@[0] != "group-"@[0]);
            assert("checkmark"@.take(6)[0] == "checkmark"@[0]);
            assert("checkmark"@[0] != "theme-"@[0]);
            assert("checkmark"@.take(6)[0] == "checkmark"@[0]);
        } else if i == 4 {
            assert(p == "cue"@);
            assert("cue"@[0] != "all"@[0]);
        } else if i == 5 {
            assert(p == "cue-region"@);
            assert("cue-region"@[0] != "group-"@[0]);
            assert("cue-region"@.take(6)[0] == "cue-region"@[0]);
            assert("cue-region"@[0] != "theme-"@[0]);
            assert("cue-region"@.take(6)[0] == "cue-region"@[0]);
        } else if i == 6 {
            assert(p == "details-content"@);
            assert("details-content"@[0] != "group-"@[0]);
            assert("details-content"@.take(6)[0] == "details-content"@[0]);
            assert("details-content"@[0] != "theme-"@[0]);
            assert("details-content"@.take(6)[0] == "details-content"@[0]);
        } else if i == 7 {
            assert(p == "file-selector-button"@);
            assert("file-selector-button"@[0] != "group-"@[0]);
            assert("file-selector-button"@.take(6)[0] == "file-selector-button"@[0]);
            assert("file-selector-button"@[0] != "theme-"@[0]);
            assert("file-selector-button"@.take(6)[0] == "file-selector-button"@[0]);
        } else if i == 8 {
            assert(p == "first-letter"@);
            assert("first-letter"@[0] != "group-"@[0]);
            assert("first-letter"@.take(6)[0] == "first-letter"@[0]);
            assert("first-letter"@[0] != "theme-"@[0]);
            assert("first-letter"@.take(6)[0] == "first-letter"@[0]);
        } else if i == 9 {
            assert(p == "first-line"@);
            assert("first-line"@[0] != "group-"@[0]);
            assert("first-line"@.take(6)[0] == "first-line"@[0]);
            assert("first-line"@[0] != "theme-"@[0]);
            assert("first-line"@.take(6)[0] == "first-line"@[0]);
        } else if i == 10 {
            assert(p == "grammar-error"@);
            assert("grammar-error"@[0] != "contrast-less"@[0]);
            assert("grammar-error"@[0] != "contrast-more"@[0]);
            assert("grammar-error"@[0] != "forced-colors"@[0]);
            assert("grammar-error"@[0] != "motion-reduce"@[0]);
            assert("grammar-error"@[2] != "group-"@[2]);
            assert("grammar-error"@.take(6)[2] == "grammar-error"@[2]);
            assert("grammar-error"@[0] != "theme-"@[0]);
            assert("grammar-error"@.take(6)[0] == "grammar-error"@[0]);
        } else if i == 11 {
            assert(p == "marker"@);
            assert("marker"@[0] != "screen"@[0]);
            assert("marker"@[0] != "group-"@[0]);
            assert("marker"@.take(6)[0] == "marker"@[0]);
            assert("marker"@[0] != "theme-"@[0]);
            assert("marker"@.take(6)[0] == "marker"@[0]);
        } else if i == 12 {
            assert(p == "picker-icon"@);
            assert("picker-icon"@[0] != "motion-safe"@[0]);
            assert("picker-icon"@[0] != "group-"@[0]);
            assert("picker-icon"@.take(6)[0] == "picker-icon"@[0]);
            assert("picker-icon"@[0] != "theme-"@[0]);
            assert("picker-icon"@.take(6)[0] == "picker-icon"@[0]);
        } else if i == 13 {
            assert(p == "placeholder"@);
            assert("placeholder"@[0] != "motion-safe"@[0]);
            assert("placeholder"@[0] != "group-"@[0]);
            assert("placeholder"@.take(6)[0] == "placeholder"@[0]);
            assert("placeholder"@[0] != "theme-"@[0]);
            assert("placeholder"@.take(6)[0] == "placeholder"@[0]);
        } else if i == 14 {
            assert(p == "scroll-marker"@);
            assert("scroll-marker"@[0] != "contrast-less"@[0]);
            assert("scroll-marker"@[0] != "contrast-more"@[0]);
            assert("scroll-marker"@[0] != "forced-colors"@[0]);
            assert("scroll-marker"@[0] != "motion-reduce"@[0]);
            assert("scroll-marker"@[0] != "group-"@[0]);
            assert("scroll-marker"@.take(6)[0] == "scroll-marker"@[0]);
            assert("scroll-marker"@[0] != "theme-"@[0]);
            assert("scroll-marker"@.take(6)[0] == "scroll-marker"@[0]);
        } else if i == 15 {
            assert(p == "scroll-marker-group"@);
            assert("scroll-marker-group"@[0] != "group-"@[0]);
            assert("scroll-marker-group"@.take(6)[0] == "scroll-marker-group"@[0]);
            assert("scroll-marker-group"@[0] != "theme-"@[0]);
            assert("scroll-marker-group"@.take(6)[0] == "scroll-marker-group"@[0]);
        } else if i == 16 {
            assert(p == "selection"@);
            assert("selection"@[0] != "landscape"@[0]);
            assert("selection"@[0] != "group-"@[0]);
            assert("selection"@.take(6)[0] == "selection"@[0]);
            assert("selection"@[0] != "theme-"@[0]);
            assert("selection"@.take(6)[0] == "selection"@[0]);
        } else if i == 17 {
            assert(p == "spelling-error"@);
            assert("spelling-error"@[0] != "group-"@[0]);
            assert("spelling-error"@.take(6)[0] == "spelling-error"@[0]);
            assert("spelling-error"@[0] != "theme-"@[0]);
            assert("spelling-error"@.take(6)[0] == "spelling-error"@[0]);
        } else if i == 18 {
            assert(p == "target-text"@);
            assert("target-text"@[0] != "motion-safe"@[0]);
            assert("target-text"@[0] != "group-"@[0]);
            assert("target-text"@.take(6)[0] == "target-text"@[0]);
            assert("target-text"@[1] != "theme-"@[1]);
            assert("target-text"@.take(6)[1] == "target-text"@[1]);
        } else if i == 19 {
            assert(p == "view-transition"@);
            assert("view-transition"@[0] != "group-"@[0]);
            assert("view-transition"@.take(6)[0] == "view-transition"@[0]);
            assert("view-transition"@[0] != "theme-"@[0]);
            assert("view-transition"@.take(6)[0] == "view-transition"@[0]);
        }
    }
    lemma_plain_name(p);
    law_pseudo_elements_double_colon(p);
    reveal_strlit("&");
    assert("&"@ + separator(p) + p =~= seq!['&', ':', ':'] + p);
}

fn push_separator(out: &mut String, post: &str)
    ensures
        final(out)@ == old(out)@ + separator(post@),
{
    let double = str_eq(post, "after") ||
        str_eq(post, "backdrop") ||
        str_eq(post, "before") ||
        str_eq(post, "checkmark") ||
        str_eq(post, "cue") ||
        str_eq(post, "cue-region") ||
        str_eq(post, "details-content") ||
        str_eq(post, "file-selector-button") ||
        str_eq(post, "first-letter") ||
        str_eq(post, "first-line") ||
        str_eq(post, "grammar-error") ||
        str_eq(post, "marker") ||
        str_eq(post, "picker-icon") ||
        str_eq(post, "placeholder") ||
        str_eq(post, "scroll-marker") ||
        str_eq(post, "scroll-marker-group") ||
        str_eq(post, "selection") ||
        str_eq(post, "spelling-error") ||
        str_eq(post, "target-text") ||
        str_eq(post, "view-transition");
    push_char(out, ':');
    if double {
        push_char(out, ':');
    }
}

/// An at-rule prelude: `@kind`, a space unless the query opens with `(`,
/// then the query.
pub open spec fn at_rule_text(kind: AtRuleKind, query: Seq<char>) -> Seq<char> {
    seq!['@'] + kind_name(kind) + (if query.len() > 0 && query[0] == '(' {
        Seq::empty()
    } else {
        seq![' ']
    }) + query
}

/// The enclosing at-rules of a selector, each followed by a space.
pub open spec fn outer_text(outer: Seq<(AtRuleKind, Seq<char>)>) -> Seq<char>
    decreases outer.len(),
{
    if outer.len() == 0 {
        Seq::empty()
    } else {
        outer_text(outer.drop_last()) + at_rule_text(outer.last().0, outer.last().1) + seq![' ']
    }
}

/// How a selector is written.
pub open spec fn selector_text(s: SelectorView) -> Seq<char> {
    match s {
        SelectorView::Selector(v) => v,
        SelectorView::Global(v, _) => v,
        SelectorView::At { kind, query, selector, outer, .. } => outer_text(outer) + at_rule_text(
            kind,
            query,
        ) + match selector {
            Some(sel) => seq![' '] + sel,
            None => Seq::empty(),
        },
    }
}

/// Write an at-rule prelude (`@media print`, `@media(min-width:1px)`),
/// spacing the query only when it does not open with a parenthesis.
pub fn write_at_rule(out: &mut String, kind: AtRuleKind, query: &str)
    ensures
        final(out)@ == old(out)@ + at_rule_text(kind, query@),
{
    push_char(out, '@');
    push_str(out, kind.as_str());
    let q = chars_of(query);
    if !(q.len() > 0 && q[0] == '(') {
        push_char(out, ' ');
    }
    push_str(out, query);
}

impl StyleSelector {
    /// The selector as written in a stylesheet.
    pub fn to_string(&self) -> (r: String)
        ensures
            r@ == selector_text(self@),
    {
        match self {
            StyleSelector::Selector(v) => v.clone(),
            StyleSelector::Global(v, _) => v.clone(),
            StyleSelector::At { kind, query, selector, outer, .. } => {
                let mut out = String::new();
                let mut i: usize = 0;
                while i < outer.len()
                    invariant
                        i <= outer@.len(),
                        out@ == outer_text(rules_view(outer@).take(i as int)),
                    decreases outer@.len() - i,
                {
                    proof {
                        assert(rules_view(outer@).take(i + 1).drop_last() == rules_view(outer@).take(i as int));
                    }
                    write_at_rule(&mut out, outer[i].kind, outer[i].query.as_str());
                    push_char(&mut out, ' ');
                    i = i + 1;
                }
                assert(rules_view(outer@).take(i as int) == rules_view(outer@));
                write_at_rule(&mut out, *kind, query.as_str());
                match selector {
                    Some(sel) => {
                        push_char(&mut out, ' ');
                        push_str(&mut out, sel.as_str());
                        assert(out@ =~= selector_text(self@));
                    },
                    None => {
                        assert(out@ =~= selector_text(self@));
                    },
                }
                out
            },
        }
    }

    /// The selector string used for class-name generation; the same text as
    /// [`StyleSelector::to_string`].
    pub fn as_class_str(&self) -> (r: String)
        ensures
            r@ == selector_text(self@),
    {
        self.to_string()
    }
}

/// `s` with every `&` replaced by `w`.
pub open spec fn replace_amp(s: Seq<char>, w: Seq<char>) -> Seq<char>
    decreases s.len(),
{
    if s.len() == 0 {
        Seq::empty()
    } else {
        replace_amp(s.drop_last(), w) + if s.last() == '&' {
            w
        } else {
            seq![s.last()]
        }
    }
}

/// `template.replace('&', with)`.
pub fn replace_amp_str(template: &str, with: &str) -> (r: String)
    ensures
        r@ == replace_amp(template@, with@),
{
    let t = chars_of(template);
    let w = chars_of(with);
    let mut out: Vec<char> = Vec::new();
    let mut i: usize = 0;
    while i < t.len()
        invariant
            i <= t@.len(),
            t@ == template@,
            w@ == with@,
            out@ == replace_amp(t@.take(i as int), w@),
        decreases t@.len() - i,
    {
        proof {
            assert(t@.take(i + 1).drop_last() == t@.take(i as int));
        }
        if t[i] == '&' {
            push_all(&mut out, &w);
        } else {
            out.push(t[i]);
        }
        i = i + 1;
    }
    assert(t@.take(i as int) == t@);
    string_from(&out)
}

/// The selector of a class `class_name` under `selector`: `&` stands for
/// `.class_name`; an at-rule without a selector, or no selector at all, is the
/// bare class; a global selector is kept as it is.
pub open spec fn merged_selector(class_name: Seq<char>, selector: Option<SelectorView>) -> Seq<char> {
    let cls = seq!['.'] + class_name;
    match selector {
        Some(SelectorView::Selector(v)) => replace_amp(v, cls),
        Some(SelectorView::At { selector: Some(s), .. }) => replace_amp(s, cls),
        Some(SelectorView::At { selector: None, .. }) => cls,
        Some(SelectorView::Global(v, _)) => v,
        None => cls,
    }
}

/// The view of an optional selector.
pub open spec fn opt_selector(o: Option<&StyleSelector>) -> Option<SelectorView> {
    match o {
        Some(s) => Some(s@),
        None => None,
    }
}

/// The CSS selector for class `class_name` under an optional selector.
pub fn merge_selector(class_name: &str, selector: Option<&StyleSelector>) -> (r: String)
    ensures
        r@ == merged_selector(class_name@, opt_selector(selector)),
{
    let mut cls = String::new();
    push_char(&mut cls, '.');
    push_str(&mut cls, class_name);
    match selector {
        Some(StyleSelector::Selector(v)) => replace_amp_str(v.as_str(), cls.as_str()),
        Some(StyleSelector::At { selector: Some(s), .. }) => replace_amp_str(s.as_str(), cls.as_str()),
        Some(StyleSelector::At { selector: None, .. }) => cls,
        Some(StyleSelector::Global(v, _)) => v.clone(),
        None => cls,
    }
}

/// The selector a style key names (`hover`, `groupHover`-style `group-*`,
/// `theme-*`, media shorthands, or a selector with `&` written out), after
/// its whitespace is collapsed.
pub open spec fn selector_from_name(v: Seq<char>) -> SelectorView {
    let c = collapse_ws(v);
    if c.contains('&') {
        SelectorView::Selector(c)
    } else if starts(c, "group-"@) {
        let post = kebab(c.skip(6));
        SelectorView::Selector(":is([role=group],[data-group])"@ + separator(post) + post + " &"@)
    } else if starts(c, "theme-"@) {
        SelectorView::Selector(":root[data-theme="@ + camel(c.skip(6)) + "] &"@)
    } else if shorthand(kebab(c)).is_some() {
        SelectorView::At {
            kind: AtRuleKind::Media,
            query: shorthand(kebab(c)).unwrap(),
            selector: None,
            outer: Seq::empty(),
            file: None,
        }
    } else {
        let post = kebab(c);
        SelectorView::Selector("&"@ + separator(post) + post)
    }
}

/// The part of `s` after its last `:` (all of `s` when it has none).
pub open spec fn last_colon_tail(s: Seq<char>) -> Seq<char>
    decreases s.len(),
{
    if s.len() == 0 {
        s
    } else if s.last() == ':' {
        Seq::empty()
    } else {
        last_colon_tail(s.drop_last()).push(s.last())
    }
}

/// The selector a pair of keys names: the first key's selector, then the
/// pseudo the second key names (the part after its last `:` when it holds
/// `&:`), in kebab case and after its separator.
pub open spec fn selector_from_pair(a: Seq<char>, b: Seq<char>) -> SelectorView {
    let post = if contains_seq(b, "&:"@) {
        kebab(last_colon_tail(b))
    } else {
        kebab(b)
    };
    SelectorView::Selector(selector_text(selector_from_name(a)) + separator(post) + post)
}

fn push_vec(out: &mut String, v: &Vec<char>)
    ensures
        final(out)@ == old(out)@ + v@,
{
    let s = string_from(v);
    push_str(out, s.as_str());
}

fn tail_from(v: &Vec<char>, lo: usize) -> (r: Vec<char>)
    requires
        lo <= v@.len(),
    ensures
        r@ == v@.skip(lo as int),
{
    let mut r: Vec<char> = Vec::new();
    crate::text::push_range(&mut r, v, lo, v.len());
    r
}

fn after_last_colon(v: &Vec<char>) -> (r: Vec<char>)
    ensures
        r@ == last_colon_tail(v@),
{
    let mut out: Vec<char> = Vec::new();
    let mut i: usize = 0;
    while i < v.len()
        invariant
            i <= v@.len(),
            out@ == last_colon_tail(v@.take(i as int)),
        decreases v@.len() - i,
    {
        proof {
            assert(v@.take(i + 1).drop_last() == v@.take(i as int));
        }
        if v[i] == ':' {
            out = Vec::new();
        } else {
            out.push(v[i]);
        }
        i = i + 1;
    }
    assert(v@.take(i as int) == v@);
    out
}

impl StyleSelector {
    /// The selector a style key names.
    pub fn from_name(value: &str) -> (r: StyleSelector)
        ensures
            r@ == selector_from_name(value@),
    {
        let c = collapse_whitespace(value);
        let cv = chars_of(c.as_str());
        let group = chars_of("group-");
        let theme = chars_of("theme-");
        proof {
            reveal_strlit("group-");
            reveal_strlit("theme-");
        }
        if has_char(&cv, '&') {
            return StyleSelector::Selector(c);
        }
        if starts_with_at(&cv, 0, &group) {
            assert(cv@.subrange(0, 6) == cv@.take(6));
            let rest = tail_from(&cv, 6);
            let post = kebab_chars(&rest);
            let ps = string_from(&post);
            let mut out = String::new();
            push_str(&mut out, ":is([role=group],[data-group])");
            push_separator(&mut out, ps.as_str());
            push_str(&mut out, ps.as_str());
            push_str(&mut out, " &");
            return StyleSelector::Selector(out);
        }
        assert(!starts(cv@, "group-"@));
        if starts_with_at(&cv, 0, &theme) {
            assert(cv@.subrange(0, 6) == cv@.take(6));
            let rest = tail_from(&cv, 6);
            let name = camel_chars(&rest);
            let mut out = String::new();
            push_str(&mut out, ":root[data-theme=");
            push_vec(&mut out, &name);
            push_str(&mut out, "] &");
            return StyleSelector::Selector(out);
        }
        assert(!starts(cv@, "theme-"@));
        match media_shorthand_query(c.as_str()) {
            Some(q) => {
                let outer: Vec<AtRule> = Vec::new();
                assert(rules_view(outer@) =~= Seq::<(AtRuleKind, Seq<char>)>::empty());
                return StyleSelector::At {
                    kind: AtRuleKind::Media,
                    query: q.to_string(),
                    selector: None,
                    outer,
                    file: None,
                };
            },
            None => {},
        }
        let post = kebab_chars(&cv);
        let ps = string_from(&post);
        let mut out = String::new();
        push_char(&mut out, '&');
        push_separator(&mut out, ps.as_str());
        push_str(&mut out, ps.as_str());
        proof {
            reveal_strlit("&");
            assert(out@ =~= "&"@ + separator(kebab(cv@)) + kebab(cv@));
        }
        StyleSelector::Selector(out)
    }

    /// The selector a pair of style keys names (`["theme-dark", "hover"]`).
    pub fn from_pair(value: [&str; 2]) -> (r: StyleSelector)
        ensures
            r@ == selector_from_pair(value[0]@, value[1]@),
    {
        let b = chars_of(value[1]);
        let amp_colon = chars_of("&:");
        let post = if contains_chars(&b, &amp_colon) {
            let tail = after_last_colon(&b);
            kebab_chars(&tail)
        } else {
            kebab_chars(&b)
        };
        let first = StyleSelector::from_name(value[0]);
        let mut out = first.to_string();
        let ps = string_from(&post);
        push_separator(&mut out, ps.as_str());
        push_str(&mut out, ps.as_str());
        StyleSelector::Selector(out)
    }
}

pub(crate) fn clone_rules(v: &Vec<AtRule>) -> (r: Vec<AtRule>)
    ensures
        rules_view(r@) == rules_view(v@),
{
    let mut r: Vec<AtRule> = Vec::new();
    let mut i: usize = 0;
    while i < v.len()
        invariant
            i <= v@.len(),
            rules_view(r@) == rules_view(v@).take(i as int),
        decreases v@.len() - i,
    {
        let rule = AtRule { kind: v[i].kind, query: v[i].query.clone() };
        let ghost before = r@;
        r.push(rule);
        assert(rules_view(r@) =~= rules_view(before).push(rules_view(v@)[i as int]));
        assert(rules_view(v@).take(i + 1) =~= rules_view(v@).take(i as int).push(rules_view(v@)[i as int]));
        i = i + 1;
    }
    assert(rules_view(v@).take(i as int) == rules_view(v@));
    r
}

pub(crate) fn clone_opt(o: &Option<String>) -> (r: Option<String>)
    ensures
        opt_string(r) == opt_string(*o),
{
    match o {
        Some(s) => Some(s.clone()),
        None => None,
    }
}

/// A selector template nested in a parent: `&` in the template stands for
/// the parent's selector; an at-rule parent keeps its prelude and gets the
/// template (with its own selector put in) as its selector.
pub open spec fn nested_selector(parent: Option<SelectorView>, template: Seq<char>) -> SelectorView {
    match parent {
        None => SelectorView::Selector(template),
        Some(SelectorView::Selector(s)) => SelectorView::Selector(replace_amp(template, s)),
        Some(SelectorView::Global(s, f)) => SelectorView::Global(replace_amp(template, s), f),
        Some(SelectorView::At { kind, query, selector, outer, file }) => SelectorView::At {
            kind,
            query,
            selector: Some(
                match selector {
                    Some(s) => replace_amp(template, s),
                    None => template,
                },
            ),
            outer,
            file,
        },
    }
}

/// An at-rule wrapped around a parent (the bare class when there is none).
/// Nested `@media` rules fold into one query where the two can be combined;
/// `None` when the combined condition can never hold. Otherwise the parent's
/// at-rule moves to the enclosing rules.
pub open spec fn nested_at_rule(parent: Option<SelectorView>, kind: AtRuleKind, query: Seq<char>) -> Option<SelectorView> {
    let q = normalize(query);
    match parent {
        None => Some(SelectorView::At { kind, query: q, selector: None, outer: Seq::empty(), file: None }),
        Some(SelectorView::Selector(s)) => Some(
            SelectorView::At { kind, query: q, selector: Some(s), outer: Seq::empty(), file: None },
        ),
        Some(SelectorView::Global(s, f)) => Some(
            SelectorView::At { kind, query: q, selector: Some(s), outer: Seq::empty(), file: Some(f) },
        ),
        Some(SelectorView::At { kind: pk, query: pq, selector, outer, file }) => {
            let nested = SelectorView::At { kind, query: q, selector, outer: outer.push((pk, pq)), file };
            if pk == AtRuleKind::Media && kind == AtRuleKind::Media {
                match combine_spec(pq, q) {
                    MediaFold::Merged(m) => Some(SelectorView::At { kind, query: m, selector, outer, file }),
                    MediaFold::Never => None,
                    MediaFold::Nest => Some(nested),
                }
            } else {
                Some(nested)
            }
        },
    }
}

impl StyleSelector {
    /// Nest a selector template (`&:hover`, `:root[data-theme=dark] &`)
    /// inside `parent`, substituting the parent's selector for `&`.
    pub fn nest_selector(parent: Option<&Self>, template: &str) -> (r: Self)
        ensures
            r@ == nested_selector(opt_selector(parent), template@),
    {
        match parent {
            None => StyleSelector::Selector(template.to_string()),
            Some(StyleSelector::Selector(selector)) => StyleSelector::Selector(
                replace_amp_str(template, selector.as_str()),
            ),
            Some(StyleSelector::Global(selector, file)) => StyleSelector::Global(
                replace_amp_str(template, selector.as_str()),
                file.clone(),
            ),
            Some(StyleSelector::At { kind, query, selector, outer, file }) => {
                let sel = match selector {
                    Some(s) => replace_amp_str(template, s.as_str()),
                    None => template.to_string(),
                };
                StyleSelector::At {
                    kind: *kind,
                    query: query.clone(),
                    selector: Some(sel),
                    outer: clone_rules(outer),
                    file: clone_opt(file),
                }
            },
        }
    }

    /// Wrap `parent` (the bare class when `None`) in an at-rule. Nested
    /// `@media` rules fold into one query where possible; `None` means the
    /// combined condition can never match, so the styles must be dropped.
    pub fn nest_at_rule(parent: Option<&Self>, kind: AtRuleKind, query: &str) -> (r: Option<Self>)
        ensures
            match r {
                Some(s) => nested_at_rule(opt_selector(parent), kind, query@) == Some(s@),
                None => nested_at_rule(opt_selector(parent), kind, query@).is_none(),
            },
    {
        let query = normalize_query(query);
        match parent {
            None => {
                let outer: Vec<AtRule> = Vec::new();
                assert(rules_view(outer@) =~= Seq::<(AtRuleKind, Seq<char>)>::empty());
                Some(StyleSelector::At { kind, query, selector: None, outer, file: None })
            },
            Some(StyleSelector::Selector(selector)) => {
                let outer: Vec<AtRule> = Vec::new();
                assert(rules_view(outer@) =~= Seq::<(AtRuleKind, Seq<char>)>::empty());
                Some(StyleSelector::At { kind, query, selector: Some(selector.clone()), outer, file: None })
            },
            Some(StyleSelector::Global(selector, file)) => {
                let outer: Vec<AtRule> = Vec::new();
                assert(rules_view(outer@) =~= Seq::<(AtRuleKind, Seq<char>)>::empty());
                Some(
                    StyleSelector::At {
                        kind,
                        query,
                        selector: Some(selector.clone()),
                        outer,
                        file: Some(file.clone()),
                    },
                )
            },
            Some(StyleSelector::At { kind: parent_kind, query: parent_query, selector, outer, file }) => {
                if *parent_kind == AtRuleKind::Media && kind == AtRuleKind::Media {
                    match combine_media_queries(parent_query.as_str(), query.as_str()) {
                        MediaCombination::Merged(merged) => {
                            return Some(
                                StyleSelector::At {
                                    kind,
                                    query: merged,
                                    selector: clone_opt(selector),
                                    outer: clone_rules(outer),
                                    file: clone_opt(file),
                                },
                            );
                        },
                        MediaCombination::Never => {
                            return None;
                        },
                        MediaCombination::Nest => {},
                    }
                }
                let mut rules = clone_rules(outer);
                let ghost before = rules@;
                rules.push(AtRule { kind: *parent_kind, query: parent_query.clone() });
                assert(rules_view(rules@) =~= rules_view(before).push((*parent_kind, parent_query@)));
                Some(
                    StyleSelector::At {
                        kind,
                        query,
                        selector: clone_opt(selector),
                        outer: rules,
                        file: clone_opt(file),
                    },
                )
            },
        }
    }
}

/// The selector with the whitespace of its selector text collapsed.
pub open spec fn optimized_selector(s: SelectorView) -> SelectorView {
    match s {
        SelectorView::At { kind, query, selector, outer, file } => SelectorView::At {
            kind,
            query,
            selector: match selector {
                Some(x) => Some(collapse_ws(x)),
                None => None,
            },
            outer,
            file,
        },
        SelectorView::Selector(v) => SelectorView::Selector(collapse_ws(v)),
        SelectorView::Global(v, f) => SelectorView::Global(collapse_ws(v), f),
    }
}

fn collapse_owned_selector(s: String) -> (r: String)
    ensures
        r@ == collapse_ws(s@),
{
    collapse_whitespace(s.as_str())
}

/// Collapse the whitespace of a selector's selector text.
pub fn optimize_selector(selector: StyleSelector) -> (r: StyleSelector)
    ensures
        r@ == optimized_selector(selector@),
{
    match selector {
        StyleSelector::At { kind, query, selector, outer, file } => StyleSelector::At {
            kind,
            query,
            selector: match selector {
                Some(x) => Some(collapse_owned_selector(x)),
                None => None,
            },
            outer,
            file,
        },
        StyleSelector::Selector(v) => StyleSelector::Selector(collapse_owned_selector(v)),
        StyleSelector::Global(v, f) => StyleSelector::Global(collapse_owned_selector(v), f),
    }
}

/// The order of a global selector's pseudo suffix: that of the last of
/// `:hover`, `:focus-visible`, `:focus`, `:active`, `:selected`, `:disabled`
/// (ranked 0 to 5 in that order) that occurs in it, or 0.
pub open spec fn global_order(s: Seq<char>) -> u8 {
    if contains_seq(s, ":disabled"@) {
        5
    } else if contains_seq(s, ":selected"@) {
        4
    } else if contains_seq(s, ":active"@) {
        3
    } else if contains_seq(s, ":focus"@) {
        2
    } else if contains_seq(s, ":focus-visible"@) {
        1
    } else {
        0
    }
}

fn contains_str(v: &[char], p: &str) -> (r: bool)
    ensures
        r == contains_seq(v@, p@),
{
    let pv = chars_of(p);
    contains_chars(v, &pv)
}

/// Rank a global selector's pseudo suffix: the rank of the last table entry
/// it contains (0 when none).
pub fn global_selector_order(order_suffix: &str) -> (r: u8)
    ensures
        r == global_order(order_suffix@),
{
    let v = chars_of(order_suffix);
    let mut order: u8 = 0;
    if contains_str(&v, ":focus-visible") {
        order = 1;
    }
    if contains_str(&v, ":focus") {
        order = 2;
    }
    if contains_str(&v, ":active") {
        order = 3;
    }
    if contains_str(&v, ":selected") {
        order = 4;
    }
    if contains_str(&v, ":disabled") {
        order = 5;
    }
    order
}

/// The rank of a pseudo-class in the selector order table.
pub open spec fn table_order(t: Seq<char>) -> Option<u8> {
    if t == ":hover"@ {
        Some(0)
    } else if t == ":focus-visible"@ {
        Some(1)
    } else if t == ":focus"@ {
        Some(2)
    } else if t == ":active"@ {
        Some(3)
    } else if t == ":selected"@ {
        Some(4)
    } else if t == ":disabled"@ {
        Some(5)
    } else {
        None
    }
}

fn table_order_of(t: &[char]) -> (r: Option<u8>)
    ensures
        r == table_order(t@),
{
    let s = string_from(t);
    if str_eq(s.as_str(), ":hover") {
        Some(0)
    } else if str_eq(s.as_str(), ":focus-visible") {
        Some(1)
    } else if str_eq(s.as_str(), ":focus") {
        Some(2)
    } else if str_eq(s.as_str(), ":active") {
        Some(3)
    } else if str_eq(s.as_str(), ":selected") {
        Some(4)
    } else if str_eq(s.as_str(), ":disabled") {
        Some(5)
    } else {
        None
    }
}

/// The number of occurrences of `c` in `s`.
pub open spec fn count_char(s: Seq<char>, c: char) -> nat
    decreases s.len(),
{
    if s.len() == 0 {
        0
    } else {
        count_char(s.drop_last(), c) + if s.last() == c {
            1nat
        } else {
            0nat
        }
    }
}

/// The index of the last `c` in `s`, or -1.
pub open spec fn last_index(s: Seq<char>, c: char) -> int
    decreases s.len(),
{
    if s.len() == 0 {
        -1
    } else if s.last() == c {
        s.len() - 1
    } else {
        last_index(s.drop_last(), c)
    }
}

proof fn lemma_last_index(s: Seq<char>, c: char)
    ensures
        -1 <= last_index(s, c) < s.len(),
        last_index(s, c) >= 0 ==> s[last_index(s, c)] == c,
    decreases s.len(),
{
    if s.len() > 0 {
        lemma_last_index(s.drop_last(), c);
    }
}

/// The part of a selector its order is read from: what follows its `&` when
/// it has exactly one, else all of it.
pub open spec fn order_tail(s: Seq<char>) -> Seq<char> {
    if count_char(s, '&') == 1 {
        s.skip(last_index(s, '&') + 1)
    } else {
        s
    }
}

/// The pseudo suffix of a group selector `... :pseudo &`: from the last `:`
/// before the closing ` &`.
pub open spec fn group_suffix(s: Seq<char>) -> Option<Seq<char>> {
    if s.len() >= 2 && s[s.len() - 2] == ' ' && s[s.len() - 1] == '&' {
        let before = s.take(s.len() - 2);
        if last_index(before, ':') >= 0 {
            Some(before.skip(last_index(before, ':')))
        } else {
            None
        }
    } else {
        None
    }
}

/// The order of a selector: its pseudo-class's rank when the part after its
/// single `&` is one, else the rank of a group selector's pseudo-class, else 0
/// for a selector that starts with `&` and 99 for any other.
pub open spec fn selector_order(s: Seq<char>) -> u8 {
    let t = order_tail(s);
    if table_order(t).is_some() {
        table_order(t).unwrap()
    } else if group_suffix(s).is_some() && table_order(group_suffix(s).unwrap()).is_some() {
        table_order(group_suffix(s).unwrap()).unwrap()
    } else if t.len() > 0 && t[0] == '&' {
        0
    } else {
        99
    }
}

/// The order in which a selector's styles are emitted.
pub fn get_selector_order(selector: &str) -> (r: u8)
    ensures
        r == selector_order(selector@),
{
    let v = chars_of(selector);
    let mut count: usize = 0;
    let mut last: usize = 0;
    let mut i: usize = 0;
    while i < v.len()
        invariant
            i <= v@.len(),
            count == count_char(v@.take(i as int), '&'),
            count <= i,
            count > 0 ==> last == last_index(v@.take(i as int), '&'),
            count == 0 ==> last_index(v@.take(i as int), '&') == -1,
        decreases v@.len() - i,
    {
        proof {
            assert(v@.take(i + 1).drop_last() == v@.take(i as int));
        }
        if v[i] == '&' {
            count = count + 1;
            last = i;
        }
        i = i + 1;
    }
    assert(v@.take(i as int) == v@);
    proof {
        lemma_last_index(v@, '&');
    }
    let tail: Vec<char> = if count == 1 {
        tail_from(&v, last + 1)
    } else {
        v.clone()
    };
    assert(tail@ == order_tail(selector@));
    match table_order_of(&tail) {
        Some(o) => {
            return o;
        },
        None => {},
    }
    let n = v.len();
    if n >= 2 && v[n - 2] == ' ' && v[n - 1] == '&' {
        let mut before: Vec<char> = Vec::new();
        crate::text::push_range(&mut before, &v, 0, n - 2);
        assert(before@ == v@.take(n - 2));
        let mut j: usize = 0;
        let mut colon: usize = 0;
        let mut found = false;
        while j < before.len()
            invariant
                j <= before@.len(),
                found ==> colon == last_index(before@.take(j as int), ':'),
                !found ==> last_index(before@.take(j as int), ':') == -1,
            decreases before@.len() - j,
        {
            proof {
                assert(before@.take(j + 1).drop_last() == before@.take(j as int));
            }
            if before[j] == ':' {
                colon = j;
                found = true;
            }
            j = j + 1;
        }
        assert(before@.take(j as int) == before@);
        if found {
            proof {
                lemma_last_index(before@, ':');
            }
            let suffix = tail_from(&before, colon);
            match table_order_of(&suffix) {
                Some(o) => {
                    return o;
                },
                None => {},
            }
        }
    }
    if tail.len() > 0 && tail[0] == '&' {
        0
    } else {
        99
    }
}

impl StyleSelector {
    /// A copy of the selector.
    pub fn copy(&self) -> (r: StyleSelector)
        ensures
            r@ == self@,
    {
        match self {
            StyleSelector::At { kind, query, selector, outer, file } => StyleSelector::At {
                kind: *kind,
                query: query.clone(),
                selector: clone_opt(selector),
                outer: clone_rules(outer),
                file: clone_opt(file),
            },
            StyleSelector::Selector(v) => StyleSelector::Selector(v.clone()),
            StyleSelector::Global(v, f) => StyleSelector::Global(v.clone(), f.clone()),
        }
    }
}

} // verus!
