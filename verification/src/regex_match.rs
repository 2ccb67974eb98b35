//! Regular-expression replacement on top of `regex_lite`: the regex finds
//! the matches and their capture groups; the replacement text of each match
//! is built here, and the text between matches is kept.
use vstd::prelude::*;
use regex_lite::Regex;
use crate::text::push_str;

verus! {

#[verifier::external_type_specification]
#[verifier::external_body]
pub struct ExRegex(regex_lite::Regex);

/// The pattern a regex was compiled from (what `Regex::as_str` gives back).
pub uninterp spec fn regex_source(re: Regex) -> Seq<char>;

/// Whether `Regex::new` accepts `pattern`: its result, `Ok` or `Err`,
/// depends on the pattern text alone (the default builder settings apply).
pub uninterp spec fn regex_compiles(pattern: Seq<char>) -> bool;

/// A regex compiled by `Regex::new` from a pattern, with the default builder
/// settings (case-sensitive, no multi-line or dot-all mode). Its field is
/// private: `regex_new` is the only way to build one, so what it matches is a
/// function of its pattern text.
pub struct Pattern {
    re: Regex,
}

impl Pattern {
    /// The pattern text this regex was compiled from.
    pub closed spec fn source(&self) -> Seq<char> {
        regex_source(self.re)
    }
}

/// `Regex::new`: the regex of `pattern` with default settings, or `None`
/// when the pattern does not compile. The outcome is named by
/// `regex_compiles`; the regex keeps its pattern, as `Regex::as_str`
/// documents.
#[verifier::external_body]
fn compile(pattern: &str) -> (r: Option<Regex>)
    ensures
        r is Some <==> regex_compiles(pattern@),
        r matches Some(re) ==> regex_source(re) == pattern@,
{
    Regex::new(pattern).ok()
}

/// The pattern compiled, or `None` when it does not compile.
pub fn regex_new(pattern: &str) -> (r: Option<Pattern>)
    ensures
        r is Some <==> regex_compiles(pattern@),
        r matches Some(p) ==> p.source() == pattern@,
{
    match compile(pattern) {
        Some(re) => Some(Pattern { re }),
        None => None,
    }
}

/// One match of a regex: the text since the end of the previous match, and
/// the capture groups (group 0 is the whole match; a group that took no part
/// in the match is `None`).
#[derive(Debug)]
pub struct RegexMatch {
    pub before: String,
    pub groups: Vec<Option<String>>,
}

/// The mathematical value of a [`RegexMatch`].
pub type MatchView = (Seq<char>, Seq<Option<Seq<char>>>);

pub open spec fn groups_view(g: Seq<Option<String>>) -> Seq<Option<Seq<char>>> {
    g.map_values(|o: Option<String>| match o {
        Some(s) => Some(s@),
        None => None,
    })
}

pub open spec fn matches_view(m: Seq<RegexMatch>) -> Seq<MatchView> {
    m.map_values(|x: RegexMatch| (x.before@, groups_view(x.groups@)))
}

/// The successive non-overlapping leftmost-first matches that the regex
/// `Regex::new` builds from `pattern` (default settings) finds in `text`, each
/// with the text before it, and the text after the last one.
pub uninterp spec fn regex_captures(pattern: Seq<char>, text: Seq<char>) -> (Seq<MatchView>, Seq<char>);

/// `Regex::captures_iter`: every match of `p` in `text`, in order, each
/// with the text since the previous match and its capture groups, and the
/// text after the last match. What they are is named by `regex_captures`,
/// a function of the pattern text (every `Pattern` comes from `Regex::new`
/// with default settings) and the text.
#[verifier::external_body]
pub(crate) fn captures_all(p: &Pattern, text: &str) -> (r: (Vec<RegexMatch>, String))
    ensures
        (matches_view(r.0@), r.1@) == regex_captures(p.source(), text@),
{
    let mut found = Vec::new();
    let mut last: usize = 0;
    for caps in p.re.captures_iter(text) {
        if let Some(m) = caps.get(0) {
            let groups = (0..caps.len()).map(|i| caps.get(i).map(|g| g.as_str().to_string())).collect();
            found.push(RegexMatch { before: text[last..m.start()].to_string(), groups });
            last = m.end();
        }
    }
    (found, text[last..].to_string())
}

/// A piece of a replacement template: literal text, or the text of a
/// capture group (`${i}`).
#[derive(Debug, Clone)]
pub enum TemplatePart {
    Text(String),
    Group(usize),
}

/// The mathematical value of a [`TemplatePart`].
pub enum PartView {
    Text(Seq<char>),
    Group(nat),
}

pub open spec fn parts_view(t: Seq<TemplatePart>) -> Seq<PartView> {
    t.map_values(|p: TemplatePart| match p {
        TemplatePart::Text(s) => PartView::Text(s@),
        TemplatePart::Group(i) => PartView::Group(i as nat),
    })
}

/// The text of group `i` (empty when it took no part or does not exist).
pub open spec fn group_text(groups: Seq<Option<Seq<char>>>, i: int) -> Seq<char> {
    if 0 <= i < groups.len() {
        match groups[i] {
            Some(t) => t,
            None => Seq::empty(),
        }
    } else {
        Seq::empty()
    }
}

/// A template with its groups filled in.
pub open spec fn expand(t: Seq<PartView>, groups: Seq<Option<Seq<char>>>) -> Seq<char>
    decreases t.len(),
{
    if t.len() == 0 {
        Seq::empty()
    } else {
        expand(t.drop_last(), groups) + match t.last() {
            PartView::Text(s) => s,
            PartView::Group(i) => group_text(groups, i as int),
        }
    }
}

/// Filling in template `t`, as a function of the groups.
pub open spec fn filled(t: Seq<PartView>) -> spec_fn(Seq<Option<Seq<char>>>) -> Seq<char> {
    |g: Seq<Option<Seq<char>>>| expand(t, g)
}

/// The text of group `i` of a match.
pub fn group_of(groups: &Vec<Option<String>>, i: usize) -> (r: String)
    ensures
        r@ == group_text(groups_view(groups@), i as int),
{
    let mut r = String::new();
    if i < groups.len() {
        if let Some(t) = &groups[i] {
            push_str(&mut r, t.as_str());
        }
    }
    proof {
        if i < groups@.len() && groups@[i as int].is_none() {
            assert(r@ =~= Seq::<char>::empty());
        }
    }
    r
}

/// Fill in a template.
pub fn expand_template(t: &Vec<TemplatePart>, groups: &Vec<Option<String>>) -> (r: String)
    ensures
        r@ == expand(parts_view(t@), groups_view(groups@)),
{
    let ghost tv = parts_view(t@);
    let mut r = String::new();
    let mut k: usize = 0;
    assert(tv.take(0) =~= Seq::<PartView>::empty());
    while k < t.len()
        invariant
            k <= t@.len(),
            tv == parts_view(t@),
            r@ == expand(tv.take(k as int), groups_view(groups@)),
        decreases t@.len() - k,
    {
        assert(tv.take(k + 1).drop_last() == tv.take(k as int));
        match &t[k] {
            TemplatePart::Text(s) => push_str(&mut r, s.as_str()),
            TemplatePart::Group(i) => {
                let g = group_of(groups, *i);
                push_str(&mut r, g.as_str());
            },
        }
        k = k + 1;
    }
    assert(tv.take(k as int) == tv);
    r
}

/// The matches, each with its text before it and its replacement.
pub open spec fn replaced_pieces(ms: Seq<MatchView>, f: spec_fn(Seq<Option<Seq<char>>>) -> Seq<char>) -> Seq<char>
    decreases ms.len(),
{
    if ms.len() == 0 {
        Seq::empty()
    } else {
        replaced_pieces(ms.drop_last(), f) + ms.last().0 + f(ms.last().1)
    }
}

/// The text once every match is replaced (what `Regex::replace_all` does).
pub open spec fn replaced_text(found: (Seq<MatchView>, Seq<char>), f: spec_fn(Seq<Option<Seq<char>>>) -> Seq<char>) -> Seq<
    char,
> {
    replaced_pieces(found.0, f) + found.1
}

/// `text` with every match of `re` replaced by the template.
pub fn replace_with_template(re: &Pattern, text: &str, t: &Vec<TemplatePart>) -> (r: String)
    ensures
        r@ == replaced_text(regex_captures(re.source(), text@), filled(parts_view(t@))),
{
    let (found, tail) = captures_all(re, text);
    let ghost f = filled(parts_view(t@));
    let ghost mv = matches_view(found@);
    let mut out = String::new();
    let mut k: usize = 0;
    assert(mv.take(0) =~= Seq::<MatchView>::empty());
    while k < found.len()
        invariant
            k <= found@.len(),
            mv == matches_view(found@),
            f == filled(parts_view(t@)),
            out@ == replaced_pieces(mv.take(k as int), f),
        decreases found@.len() - k,
    {
        assert(mv.take(k + 1).drop_last() == mv.take(k as int));
        let ghost before = out@;
        push_str(&mut out, found[k].before.as_str());
        let rep = expand_template(t, &found[k].groups);
        push_str(&mut out, rep.as_str());
        proof {
            let m = mv.take(k + 1).last();
            assert(m == mv[k as int]);
            assert(m.0 == found@[k as int].before@);
            assert(m.1 == groups_view(found@[k as int].groups@));
            assert(f(m.1) == expand(parts_view(t@), m.1));
            assert(rep@ == f(m.1));
            assert(out@ =~= before + m.0 + f(m.1));
        }
        k = k + 1;
    }
    assert(mv.take(k as int) == mv);
    push_str(&mut out, tail.as_str());
    out
}

} // verus!
