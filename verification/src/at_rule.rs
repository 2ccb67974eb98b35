//! At-rule preludes: media shorthands, query normalization, media query
//! combination, and the order in which at-rule blocks are emitted.
use vstd::prelude::*;
use crate::style_selector::AtRuleKind;
use crate::utils::{kebab, kebab_chars};
use crate::text::{
    ascii_alnum, chars_eq, chars_of, eq_ignore_case, eq_ignore_case_at, is_ascii_alnum,
    is_unicode_ws, push_all, push_chars, starts_with_at, string_from, string_of, trim, trim_bounds, trim_end,
    trim_start, ws, contains_chars, contains_seq, occurs_at,
};

verus! {

/// Characters that belong to a word of a media query: ASCII letters and
/// digits, `-`, `_`, `.`, `%`, and every non-ASCII character.
pub open spec fn is_word_char(c: char) -> bool {
    is_ascii_alnum(c) || c == '-' || c == '_' || c == '.' || c == '%' || (c as u32) >= 128
}

pub fn word_char(c: char) -> (r: bool)
    ensures
        r == is_word_char(c),
{
    ascii_alnum(c) || c == '-' || c == '_' || c == '.' || c == '%' || (c as u32) >= 128
}

/// Length of the run of word characters that starts `s`.
pub open spec fn word_prefix_len(s: Seq<char>) -> nat
    decreases s.len(),
{
    if s.len() > 0 && is_word_char(s[0]) {
        1 + word_prefix_len(s.drop_first())
    } else {
        0
    }
}

/// Length of the run of word characters that ends `s`.
pub open spec fn word_suffix_len(s: Seq<char>) -> nat
    decreases s.len(),
{
    if s.len() > 0 && is_word_char(s.last()) {
        1 + word_suffix_len(s.drop_last())
    } else {
        0
    }
}

/// The word that starts `s` (possibly empty).
pub open spec fn leading_word(s: Seq<char>) -> Seq<char> {
    s.take(word_prefix_len(s) as int)
}

/// The word that ends `s` (possibly empty).
pub open spec fn trailing_word(s: Seq<char>) -> Seq<char> {
    s.skip(s.len() - word_suffix_len(s))
}

/// `and`, `or`, `not` or `only`, in any ASCII case.
pub open spec fn is_keyword(w: Seq<char>) -> bool {
    eq_ignore_case(w, "and"@) || eq_ignore_case(w, "or"@) || eq_ignore_case(w, "not"@)
        || eq_ignore_case(w, "only"@)
}

/// `text` ends with a standalone keyword: the trailing word is a keyword and
/// is preceded by nothing, a space, a parenthesis or a comma.
pub open spec fn ends_with_keyword(text: Seq<char>) -> bool {
    let n = word_suffix_len(text);
    is_keyword(trailing_word(text)) && (text.len() == n || {
        let p = text[text.len() - n - 1];
        p == ' ' || p == '(' || p == ')' || p == ','
    })
}

/// Whether the whitespace between `prev` and `next` survives as one space.
pub open spec fn keeps_space_spec(prev: char, next: char, in_function: bool) -> bool {
    if prev == '(' || prev == ',' || next == ')' || next == ',' {
        false
    } else {
        in_function || !(prev == ':' || prev == '<' || prev == '>' || prev == '=' || prev == ')'
            || next == ':' || next == '<' || next == '>' || next == '=')
    }
}

/// Index just past the end of a quoted string whose body starts at `j`:
/// the closing `q` that no backslash escapes, or the end of the text.
pub open spec fn quote_end(s: Seq<char>, j: int, q: char, escaped: bool) -> int
    decreases s.len() - j,
{
    if j < 0 || j >= s.len() {
        j
    } else if escaped {
        quote_end(s, j + 1, q, false)
    } else if s[j] == '\\' {
        quote_end(s, j + 1, q, true)
    } else if s[j] == q {
        j + 1
    } else {
        quote_end(s, j + 1, q, false)
    }
}

pub proof fn lemma_quote_end(s: Seq<char>, j: int, q: char, escaped: bool)
    requires
        0 <= j <= s.len(),
    ensures
        j <= quote_end(s, j, q, escaped) <= s.len(),
    decreases s.len() - j,
{
    if j < s.len() {
        if escaped {
            lemma_quote_end(s, j + 1, q, false);
        } else if s[j] == '\\' {
            lemma_quote_end(s, j + 1, q, true);
        } else if s[j] != q {
            lemma_quote_end(s, j + 1, q, false);
        }
    }
}

/// One pass of query normalization from position `i`, with the output so
/// far, the stack of open parentheses (`true` for one that opened a
/// function) and whether whitespace is pending.
pub open spec fn nq(s: Seq<char>, i: int, out: Seq<char>, parens: Seq<bool>, pending: bool) -> Seq<
    char,
>
    decreases s.len() - i,
{
    if i < 0 || i >= s.len() {
        out
    } else {
        let c = s[i];
        if is_unicode_ws(c) {
            nq(s, i + 1, out, parens, true)
        } else {
            let in_function = parens.len() > 0 && parens.last();
            let keyword_paren = c == '(' && !in_function && ends_with_keyword(out);
            let function_paren = c == '(' && !pending && !keyword_paren && out.len() > 0
                && is_word_char(out.last());
            let spaced = if out.len() > 0 && (keyword_paren || (pending && keeps_space_spec(
                out.last(),
                c,
                in_function,
            ))) {
                out.push(' ')
            } else {
                out
            };
            let out2 = spaced.push(c);
            if c == '(' {
                nq(s, i + 1, out2, parens.push(function_paren), false)
            } else if c == ')' {
                nq(
                    s,
                    i + 1,
                    out2,
                    if parens.len() > 0 {
                        parens.drop_last()
                    } else {
                        parens
                    },
                    false,
                )
            } else if c == '"' || c == '\'' {
                let e = quote_end(s, i + 1, c, false);
                proof {
                    lemma_quote_end(s, i + 1, c, false);
                }
                nq(s, e, out2 + s.subrange(i + 1, e), parens, false)
            } else {
                nq(s, i + 1, out2, parens, false)
            }
        }
    }
}

/// The normalized spelling of an at-rule prelude.
pub open spec fn normalize(s: Seq<char>) -> Seq<char> {
    nq(s, 0, seq![], seq![], false)
}

proof fn lemma_word_suffix(v: Seq<char>, j: int)
    requires
        0 <= j <= v.len(),
        forall|k: int| j <= k < v.len() ==> is_word_char(#[trigger] v[k]),
        j == 0 || !is_word_char(v[j - 1]),
    ensures
        word_suffix_len(v) == v.len() - j,
    decreases v.len() - j,
{
    if j < v.len() {
        lemma_word_suffix(v.drop_last(), j);
    }
}

proof fn lemma_word_prefix(v: Seq<char>, j: int)
    requires
        0 <= j <= v.len(),
        forall|k: int| 0 <= k < j ==> is_word_char(#[trigger] v[k]),
        j == v.len() || !is_word_char(v[j]),
    ensures
        word_prefix_len(v) == j,
    decreases j,
{
    if j > 0 {
        assert forall|k: int| 0 <= k < j - 1 implies is_word_char(#[trigger] v.drop_first()[k]) by {
            assert(v.drop_first()[k] == v[k + 1]);
        }
        lemma_word_prefix(v.drop_first(), j - 1);
    }
}

/// Length of the word that ends `v[..hi]`.
pub fn word_suffix_at(v: &[char], hi: usize) -> (r: usize)
    requires
        hi <= v@.len(),
    ensures
        r == word_suffix_len(v@.subrange(0, hi as int)),
        r <= hi,
{
    let mut j = hi;
    while j > 0 && word_char(v[j - 1])
        invariant
            j <= hi <= v@.len(),
            forall|k: int| j <= k < hi ==> is_word_char(#[trigger] v@[k]),
        decreases j,
    {
        j = j - 1;
    }
    proof {
        let t = v@.subrange(0, hi as int);
        assert forall|k: int| j <= k < t.len() implies is_word_char(#[trigger] t[k]) by {
            assert(t[k] == v@[k]);
        }
        lemma_word_suffix(t, j as int);
    }
    hi - j
}

/// Length of the word that starts `v[lo..hi]`.
pub fn word_prefix_at(v: &[char], lo: usize, hi: usize) -> (r: usize)
    requires
        lo <= hi <= v@.len(),
    ensures
        r == word_prefix_len(v@.subrange(lo as int, hi as int)),
        lo + r <= hi,
{
    let mut j = lo;
    while j < hi && word_char(v[j])
        invariant
            lo <= j <= hi <= v@.len(),
            forall|k: int| lo <= k < j ==> is_word_char(#[trigger] v@[k]),
        decreases hi - j,
    {
        j = j + 1;
    }
    proof {
        let t = v@.subrange(lo as int, hi as int);
        assert forall|k: int| 0 <= k < j - lo implies is_word_char(#[trigger] t[k]) by {
            assert(t[k] == v@[lo + k]);
        }
        lemma_word_prefix(t, j - lo);
    }
    j - lo
}

/// Whether `v[lo..hi]` is one of the keywords `and`, `or`, `not`, `only`.
pub fn keyword_at(v: &[char], lo: usize, hi: usize) -> (r: bool)
    requires
        lo <= hi <= v@.len(),
    ensures
        r == is_keyword(v@.subrange(lo as int, hi as int)),
{
    let and_ = chars_of("and");
    let or_ = chars_of("or");
    let not_ = chars_of("not");
    let only_ = chars_of("only");
    eq_ignore_case_at(v, lo, hi, &and_) || eq_ignore_case_at(v, lo, hi, &or_) || eq_ignore_case_at(
        v,
        lo,
        hi,
        &not_,
    ) || eq_ignore_case_at(v, lo, hi, &only_)
}

/// Whether `v` ends with a standalone keyword.
pub fn ends_with_keyword_exec(v: &[char]) -> (r: bool)
    ensures
        r == ends_with_keyword(v@),
{
    let n = word_suffix_at(v, v.len());
    assert(v@.subrange(0, v@.len() as int) == v@);
    let len = v.len();
    if !keyword_at(v, len - n, len) {
        return false;
    }
    if len == n {
        return true;
    }
    let p = v[len - n - 1];
    p == ' ' || p == '(' || p == ')' || p == ','
}

pub fn keeps_space(prev: char, next: char, in_function: bool) -> (r: bool)
    ensures
        r == keeps_space_spec(prev, next, in_function),
{
    if prev == '(' || prev == ',' || next == ')' || next == ',' {
        return false;
    }
    in_function || !(prev == ':' || prev == '<' || prev == '>' || prev == '=' || prev == ')' || next
        == ':' || next == '<' || next == '>' || next == '=')
}

/// Normalization of a character sequence (see [`normalize`]).
pub fn normalize_chars(s: &[char]) -> (r: Vec<char>)
    ensures
        r@ == normalize(s@),
{
    let mut out: Vec<char> = Vec::new();
    let mut parens: Vec<bool> = Vec::new();
    let mut pending = false;
    let mut i: usize = 0;
    while i < s.len()
        invariant
            i <= s@.len(),
            normalize(s@) == nq(s@, i as int, out@, parens@, pending),
        decreases s@.len() - i,
    {
        let c = s[i];
        if ws(c) {
            pending = true;
            i = i + 1;
            continue;
        }
        let in_function = parens.len() > 0 && parens[parens.len() - 1];
        let keyword_paren = c == '(' && !in_function && ends_with_keyword_exec(&out);
        let function_paren = c == '(' && !pending && !keyword_paren && out.len() > 0 && word_char(
            out[out.len() - 1],
        );
        if out.len() > 0 && (keyword_paren || (pending && keeps_space(
            out[out.len() - 1],
            c,
            in_function,
        ))) {
            out.push(' ');
        }
        pending = false;
        out.push(c);
        if c == '(' {
            parens.push(function_paren);
            i = i + 1;
        } else if c == ')' {
            if parens.len() > 0 {
                parens.pop();
            }
            i = i + 1;
        } else if c == '"' || c == '\'' {
            let ghost before = out@;
            let mut j = i + 1;
            let mut escaped = false;
            proof {
                lemma_quote_end(s@, i + 1, c, false);
            }
            while j < s.len()
                invariant_except_break
                    i + 1 <= j <= s@.len(),
                    quote_end(s@, i + 1, c, false) == quote_end(s@, j as int, c, escaped),
                    out@ == before + s@.subrange(i + 1, j as int),
                ensures
                    i + 1 <= j <= s@.len(),
                    quote_end(s@, i + 1, c, false) == j,
                    out@ == before + s@.subrange(i + 1, j as int),
                decreases s@.len() - j,
            {
                let inner = s[j];
                out.push(inner);
                assert(s@.subrange(i + 1, j + 1) == s@.subrange(i + 1, j as int).push(inner));
                if escaped {
                    escaped = false;
                } else if inner == '\\' {
                    escaped = true;
                } else if inner == c {
                    j = j + 1;
                    break;
                }
                j = j + 1;
            }
            i = j;
        } else {
            i = i + 1;
        }
    }
    out
}

/// Rewrite an at-rule prelude into its shortest equivalent spelling:
/// whitespace is dropped wherever the tokens stay unambiguous and kept as one
/// space between words and before a `(` that follows a word; a missing space
/// after a keyword before `(` is added; function arguments and quoted strings
/// keep their whitespace.
pub fn normalize_query(query: &str) -> (r: String)
    ensures
        r@ == normalize(query@),
{
    let v = chars_of(query);
    let n = normalize_chars(&v);
    string_from(&n)
}


proof fn lemma_quote_end_shift(s: Seq<char>, j: int, t: Seq<char>, p: int, q: char, esc: bool)
    requires
        0 <= j <= s.len(),
        0 <= p,
        p + (quote_end(s, j, q, esc) - j) <= t.len(),
        forall|k: int| j <= k < quote_end(s, j, q, esc) ==> t[p + (k - j)] == #[trigger] s[k],
        quote_end(s, j, q, esc) == s.len() ==> p + (s.len() - j) == t.len(),
    ensures
        quote_end(t, p, q, esc) == p + (quote_end(s, j, q, esc) - j),
    decreases s.len() - j,
{
    lemma_quote_end(s, j, q, esc);
    if j < s.len() {
        if esc {
            lemma_quote_end(s, j + 1, q, false);
            assert(t[p] == s[j]);
            lemma_quote_end_shift(s, j + 1, t, p + 1, q, false);
        } else if s[j] == '\\' {
            lemma_quote_end(s, j + 1, q, true);
            assert(t[p] == s[j]);
            lemma_quote_end_shift(s, j + 1, t, p + 1, q, true);
        } else if s[j] == q {
            assert(t[p] == s[j]);
        } else {
            lemma_quote_end(s, j + 1, q, false);
            assert(t[p] == s[j]);
            lemma_quote_end_shift(s, j + 1, t, p + 1, q, false);
        }
    }
}

proof fn lemma_nq_extends(s: Seq<char>, i: int, out: Seq<char>, parens: Seq<bool>, pending: bool)
    ensures
        out.len() <= nq(s, i, out, parens, pending).len(),
        nq(s, i, out, parens, pending).take(out.len() as int) == out,
    decreases s.len() - i,
{
    if 0 <= i < s.len() {
        let c = s[i];
        if is_unicode_ws(c) {
            lemma_nq_extends(s, i + 1, out, parens, true);
        } else {
            let in_function = parens.len() > 0 && parens.last();
            let keyword_paren = c == '(' && !in_function && ends_with_keyword(out);
            let function_paren = c == '(' && !pending && !keyword_paren && out.len() > 0
                && is_word_char(out.last());
            let spaced = if out.len() > 0 && (keyword_paren || (pending && keeps_space_spec(
                out.last(),
                c,
                in_function,
            ))) {
                out.push(' ')
            } else {
                out
            };
            let out2 = spaced.push(c);
            assert(out2.take(out.len() as int) == out);
            let t = nq(s, i, out, parens, pending);
            if c == '(' {
                lemma_nq_extends(s, i + 1, out2, parens.push(function_paren), false);
                assert(t.take(out2.len() as int).take(out.len() as int) == t.take(out.len() as int));
            } else if c == ')' {
                let p2 = if parens.len() > 0 {
                    parens.drop_last()
                } else {
                    parens
                };
                lemma_nq_extends(s, i + 1, out2, p2, false);
                assert(t.take(out2.len() as int).take(out.len() as int) == t.take(out.len() as int));
            } else if c == '"' || c == '\'' {
                let e = quote_end(s, i + 1, c, false);
                lemma_quote_end(s, i + 1, c, false);
                let out3 = out2 + s.subrange(i + 1, e);
                lemma_nq_extends(s, e, out3, parens, false);
                assert(out3.take(out.len() as int) == out);
                assert(t.take(out3.len() as int).take(out.len() as int) == t.take(out.len() as int));
            } else {
                lemma_nq_extends(s, i + 1, out2, parens, false);
                assert(t.take(out2.len() as int).take(out.len() as int) == t.take(out.len() as int));
            }
        }
    }
}

proof fn lemma_nq_fixed(s: Seq<char>, i: int, out: Seq<char>, parens: Seq<bool>, pending: bool)
    ensures
        nq(nq(s, i, out, parens, pending), out.len() as int, out, parens, false) == nq(
            s,
            i,
            out,
            parens,
            pending,
        ),
    decreases s.len() - i,
{
    let t = nq(s, i, out, parens, pending);
    let p = out.len() as int;
    if 0 <= i < s.len() {
        let c = s[i];
        if is_unicode_ws(c) {
            lemma_nq_fixed(s, i + 1, out, parens, true);
        } else {
            let in_function = parens.len() > 0 && parens.last();
            let keyword_paren = c == '(' && !in_function && ends_with_keyword(out);
            let function_paren = c == '(' && !pending && !keyword_paren && out.len() > 0
                && is_word_char(out.last());
            let emit = out.len() > 0 && (keyword_paren || (pending && keeps_space_spec(
                out.last(),
                c,
                in_function,
            )));
            let spaced = if emit {
                out.push(' ')
            } else {
                out
            };
            let out2 = spaced.push(c);
            let q = out2.len() as int;
            let (ni, nout, nparens) = if c == '(' {
                (i + 1, out2, parens.push(function_paren))
            } else if c == ')' {
                (
                    i + 1,
                    out2,
                    if parens.len() > 0 {
                        parens.drop_last()
                    } else {
                        parens
                    },
                )
            } else if c == '"' || c == '\'' {
                let e = quote_end(s, i + 1, c, false);
                (e, out2 + s.subrange(i + 1, e), parens)
            } else {
                (i + 1, out2, parens)
            };
            lemma_quote_end(s, i + 1, c, false);
            assert(t == nq(s, ni, nout, nparens, false));
            lemma_nq_fixed(s, ni, nout, nparens, false);
            lemma_nq_extends(s, ni, nout, nparens, false);
            assert(nout.take(q) == out2);
            assert(t.take(nout.len() as int).take(q) == t.take(q));
            assert(t.take(q) == out2);
            assert(out2[q - 1] == c);
            assert(t.take(q)[q - 1] == t[q - 1]);
            assert(t[q - 1] == c);
            if !emit && pending && c == '(' && out.len() > 0 {
                assert(!is_word_char(out.last()));
            }
            if emit {
                assert(out2[p] == ' ');
                assert(t.take(q)[p] == t[p]);
                assert(t[p] == ' ');
                assert(is_unicode_ws(t[p]));
                assert(nq(t, p, out, parens, false) == nq(t, p + 1, out, parens, true));
                assert(q == p + 2);
            } else {
                assert(q == p + 1);
            }
            if c == '"' || c == '\'' {
                let e = quote_end(s, i + 1, c, false);
                assert forall|k: int| i + 1 <= k < e implies t[q + (k - (i + 1))] == #[trigger] s[k] by {
                    assert(nout[q + (k - (i + 1))] == s[k]);
                    assert(t.take(nout.len() as int)[q + (k - (i + 1))] == t[q + (k - (i + 1))]);
                }
                if e == s.len() {
                    assert(t == nout);
                }
                lemma_quote_end_shift(s, i + 1, t, q, c, false);
                assert(t.subrange(q, q + (e - (i + 1))) == s.subrange(i + 1, e));
            }
        }
    }
}

/// Normalizing a normalized query changes nothing: the output is already in
/// its shortest spelling (no droppable whitespace is left; the spaces kept,
/// function arguments and quoted strings come back unchanged).
pub proof fn law_normalize_idempotent(s: Seq<char>)
    ensures
        normalize(normalize(s)) == normalize(s),
{
    lemma_nq_fixed(s, 0, seq![], seq![], false);
}

/// The views of a list of character vectors.
pub open spec fn views(vs: Seq<Vec<char>>) -> Seq<Seq<char>> {
    vs.map_values(|v: Vec<char>| v@)
}

/// The trimmed parts of `s[start..]` split at commas outside parentheses,
/// scanning from `i` at parenthesis depth `depth`.
pub open spec fn split_from(s: Seq<char>, i: int, depth: nat, start: int) -> Seq<Seq<char>>
    decreases s.len() - i,
{
    if i < 0 || i >= s.len() {
        seq![trim(s.subrange(start, s.len() as int))]
    } else {
        let c = s[i];
        if c == '(' {
            split_from(s, i + 1, depth + 1, start)
        } else if c == ')' {
            split_from(
                s,
                i + 1,
                if depth > 0 {
                    (depth - 1) as nat
                } else {
                    0
                },
                start,
            )
        } else if c == ',' && depth == 0 {
            seq![trim(s.subrange(start, i))] + split_from(s, i + 1, 0, i + 1)
        } else {
            split_from(s, i + 1, depth, start)
        }
    }
}

/// A media query list split into its queries.
pub open spec fn split_list(s: Seq<char>) -> Seq<Seq<char>> {
    split_from(s, 0, 0, 0)
}

/// The parts of a media query list, each a trimmed copy.
pub fn split_list_chars(s: &[char]) -> (r: Vec<Vec<char>>)
    ensures
        views(r@) == split_list(s@),
{
    let mut parts: Vec<Vec<char>> = Vec::new();
    let mut depth: usize = 0;
    let mut start: usize = 0;
    let mut i: usize = 0;
    while i < s.len()
        invariant
            start <= i <= s@.len(),
            depth <= i,
            split_list(s@) == views(parts@) + split_from(s@, i as int, depth as nat, start as int),
        decreases s@.len() - i,
    {
        let c = s[i];
        if c == '(' {
            depth = depth + 1;
        } else if c == ')' {
            if depth > 0 {
                depth = depth - 1;
            }
        } else if c == ',' && depth == 0 {
            let (a, b) = trim_bounds(s, start, i);
            let mut part: Vec<char> = Vec::new();
            crate::text::push_range(&mut part, s, a, b);
            let ghost old_parts = parts@;
            parts.push(part);
            proof {
                assert(views(parts@) == views(old_parts).push(trim(s@.subrange(start as int, i as int))));
                assert(seq![trim(s@.subrange(start as int, i as int))] + split_from(s@, i + 1, 0, i + 1)
                    == seq![trim(s@.subrange(start as int, i as int))].add(split_from(s@, i + 1, 0, i + 1)));
                assert(views(old_parts) + (seq![trim(s@.subrange(start as int, i as int))] + split_from(s@, i + 1, 0, i + 1))
                    == views(parts@) + split_from(s@, i + 1, 0, i + 1));
            }
            start = i + 1;
        }
        i = i + 1;
    }
    let (a, b) = trim_bounds(s, start, s.len());
    let mut part: Vec<char> = Vec::new();
    crate::text::push_range(&mut part, s, a, b);
    let ghost old_parts = parts@;
    parts.push(part);
    proof {
        assert(views(parts@) == views(old_parts).push(trim(s@.subrange(start as int, s@.len() as int))));
    }
    parts
}

/// A parsed media query: `[not|only] type [and condition]` or a bare
/// condition.
pub struct MediaQueryView {
    pub negated: bool,
    pub only: bool,
    pub media_type: Option<Seq<char>>,
    pub condition: Option<Seq<char>>,
}

pub struct MediaQuery {
    pub negated: bool,
    pub only: bool,
    pub media_type: Option<Vec<char>>,
    pub condition: Option<Vec<char>>,
}

pub open spec fn opt_view(o: Option<Vec<char>>) -> Option<Seq<char>> {
    match o {
        Some(v) => Some(v@),
        None => None,
    }
}

impl View for MediaQuery {
    type V = MediaQueryView;

    open spec fn view(&self) -> MediaQueryView {
        MediaQueryView {
            negated: self.negated,
            only: self.only,
            media_type: opt_view(self.media_type),
            condition: opt_view(self.condition),
        }
    }
}

/// `s` starts with the characters of `p`.
pub open spec fn starts(s: Seq<char>, p: Seq<char>) -> bool {
    p.len() <= s.len() && s.take(p.len() as int) == p
}

/// The media query of `typed` = `type [and condition]`, with the flags read
/// from a leading `not` / `only`.
pub open spec fn parse_typed(typed: Seq<char>, negated: bool, only: bool) -> Option<MediaQueryView> {
    let media_type = leading_word(typed);
    if media_type.len() == 0 || is_keyword(media_type) {
        None
    } else {
        let after = typed.skip(media_type.len() as int);
        if after.len() == 0 {
            Some(MediaQueryView { negated, only, media_type: Some(media_type), condition: None })
        } else if starts(after, " and "@) && {
            let c = after.skip(5);
            (c.len() > 0 && c[0] == '(') || starts(c, "not "@)
        } {
            Some(
                MediaQueryView {
                    negated,
                    only,
                    media_type: Some(media_type),
                    condition: Some(after.skip(5)),
                },
            )
        } else {
            None
        }
    }
}

/// The media query `q` stands for, or `None` when it is malformed.
pub open spec fn parse_mq(q: Seq<char>) -> Option<MediaQueryView> {
    let condition_only = MediaQueryView {
        negated: false,
        only: false,
        media_type: None,
        condition: Some(q),
    };
    if q.len() > 0 && q[0] == '(' {
        Some(condition_only)
    } else {
        let first = leading_word(q);
        let rest = q.skip(first.len() as int);
        let is_not = eq_ignore_case(first, "not"@);
        let is_only = eq_ignore_case(first, "only"@);
        let spaced = rest.len() > 0 && rest[0] == ' ';
        if is_not && rest.len() >= 2 && rest[0] == ' ' && rest[1] == '(' {
            Some(condition_only)
        } else if (is_not || is_only) && !spaced {
            None
        } else if is_not || is_only {
            parse_typed(rest.drop_first(), is_not, !is_not && is_only)
        } else {
            parse_typed(q, false, false)
        }
    }
}

/// A copy of `v[lo..hi]`.
fn slice_copy(v: &[char], lo: usize, hi: usize) -> (r: Vec<char>)
    requires
        lo <= hi <= v@.len(),
    ensures
        r@ == v@.subrange(lo as int, hi as int),
{
    let mut r: Vec<char> = Vec::new();
    crate::text::push_range(&mut r, v, lo, hi);
    r
}

fn parse_typed_at(q: &[char], t0: usize, negated: bool, only: bool) -> (r: Option<MediaQuery>)
    requires
        t0 <= q@.len(),
    ensures
        match r {
            Some(m) => parse_typed(q@.subrange(t0 as int, q@.len() as int), negated, only) == Some(m@),
            None => parse_typed(q@.subrange(t0 as int, q@.len() as int), negated, only).is_none(),
        },
{
    let len = q.len();
    let ghost typed = q@.subrange(t0 as int, len as int);
    let m = word_prefix_at(q, t0, len);
    if m == 0 || keyword_at(q, t0, t0 + m) {
        return None;
    }
    let media_type = slice_copy(q, t0, t0 + m);
    let a0 = t0 + m;
    assert(leading_word(typed) == q@.subrange(t0 as int, a0 as int));
    assert(typed.skip(m as int) == q@.subrange(a0 as int, len as int));
    if a0 == len {
        return Some(MediaQuery { negated, only, media_type: Some(media_type), condition: None });
    }
    let and_ = chars_of(" and ");
    let not_sp = chars_of("not ");
    proof {
        reveal_strlit(" and ");
        reveal_strlit("not ");
    }
    let ghost after = q@.subrange(a0 as int, len as int);
    if starts_with_at(q, a0, &and_) {
        let c0 = a0 + 5;
        assert(after.take(5) == q@.subrange(a0 as int, a0 + 5));
        assert(after.skip(5) == q@.subrange(c0 as int, len as int));
        let ok = (c0 < len && q[c0] == '(') || starts_with_at(q, c0, &not_sp);
        proof {
            let c = q@.subrange(c0 as int, len as int);
            if c0 + 4 <= len {
                assert(c.take(4) == q@.subrange(c0 as int, c0 + 4));
            }
        }
        if ok {
            return Some(
                MediaQuery {
                    negated,
                    only,
                    media_type: Some(media_type),
                    condition: Some(slice_copy(q, c0, len)),
                },
            );
        }
        return None;
    }
    proof {
        if after.len() >= 5 {
            assert(after.take(5) == q@.subrange(a0 as int, a0 + 5));
        }
    }
    None
}

/// Parse one media query of a (normalized) query list.
pub fn parse_media_query(q: &[char]) -> (r: Option<MediaQuery>)
    ensures
        match r {
            Some(m) => parse_mq(q@) == Some(m@),
            None => parse_mq(q@).is_none(),
        },
{
    let len = q.len();
    assert(q@.subrange(0, len as int) == q@);
    if len > 0 && q[0] == '(' {
        return Some(MediaQuery { negated: false, only: false, media_type: None, condition: Some(slice_copy(q, 0, len)) });
    }
    let n = word_prefix_at(q, 0, len);
    let not_ = chars_of("not");
    let only_ = chars_of("only");
    let is_not = eq_ignore_case_at(q, 0, n, &not_);
    let is_only = eq_ignore_case_at(q, 0, n, &only_);
    let ghost first = leading_word(q@);
    let ghost rest = q@.skip(first.len() as int);
    assert(first == q@.subrange(0, n as int));
    assert(rest == q@.subrange(n as int, len as int));
    let spaced = n < len && q[n] == ' ';
    if is_not && n < len && n + 1 < len && q[n] == ' ' && q[n + 1] == '(' {
        return Some(MediaQuery { negated: false, only: false, media_type: None, condition: Some(slice_copy(q, 0, len)) });
    }
    if (is_not || is_only) && !spaced {
        return None;
    }
    if is_not || is_only {
        assert(rest.drop_first() == q@.subrange(n + 1, len as int));
        parse_typed_at(q, n + 1, is_not, !is_not && is_only)
    } else {
        parse_typed_at(q, 0, false, false)
    }
}

/// Result of folding two media queries into one.
#[derive(Debug, PartialEq, Eq)]
pub enum MediaCombination {
    /// Both queries hold exactly when this single query list holds.
    Merged(String),
    /// The queries can never hold together (e.g. `print` inside `screen`).
    Never,
    /// No single query expresses both; nested `@media` blocks are needed.
    Nest,
}

/// The mathematical value of a [`MediaCombination`].
pub enum MediaFold {
    Merged(Seq<char>),
    Never,
    Nest,
}

impl View for MediaCombination {
    type V = MediaFold;

    open spec fn view(&self) -> MediaFold {
        match self {
            MediaCombination::Merged(q) => MediaFold::Merged(q@),
            MediaCombination::Never => MediaFold::Never,
            MediaCombination::Nest => MediaFold::Nest,
        }
    }
}

/// `not print` becomes `screen` and `not screen` becomes `print`; `not all`
/// can never hold, and any other negation cannot be folded.
pub open spec fn resolve_neg(q: MediaQueryView) -> Result<MediaQueryView, MediaFold> {
    if !q.negated {
        Ok(q)
    } else if q.condition.is_some() {
        Err(MediaFold::Nest)
    } else {
        match q.media_type {
            Some(t) => if eq_ignore_case(t, "print"@) {
                Ok(
                    MediaQueryView {
                        negated: false,
                        only: false,
                        media_type: Some("screen"@),
                        condition: None,
                    },
                )
            } else if eq_ignore_case(t, "screen"@) {
                Ok(
                    MediaQueryView {
                        negated: false,
                        only: false,
                        media_type: Some("print"@),
                        condition: None,
                    },
                )
            } else if eq_ignore_case(t, "all"@) {
                Err(MediaFold::Never)
            } else {
                Err(MediaFold::Nest)
            },
            None => Err(MediaFold::Nest),
        }
    }
}

fn resolve_negation(q: MediaQuery) -> (r: Result<MediaQuery, MediaCombination>)
    ensures
        match r {
            Ok(m) => resolve_neg(q@) == Ok::<MediaQueryView, MediaFold>(m@),
            Err(e) => resolve_neg(q@) == Err::<MediaQueryView, MediaFold>(e@),
        },
{
    if !q.negated {
        return Ok(q);
    }
    if q.condition.is_some() {
        return Err(MediaCombination::Nest);
    }
    match q.media_type {
        Some(t) => {
            let print_ = chars_of("print");
            let screen_ = chars_of("screen");
            let all_ = chars_of("all");
            assert(t@.subrange(0, t@.len() as int) == t@);
            if eq_ignore_case_at(&t, 0, t.len(), &print_) {
                Ok(MediaQuery { negated: false, only: false, media_type: Some(chars_of("screen")), condition: None })
            } else if eq_ignore_case_at(&t, 0, t.len(), &screen_) {
                Ok(MediaQuery { negated: false, only: false, media_type: Some(chars_of("print")), condition: None })
            } else if eq_ignore_case_at(&t, 0, t.len(), &all_) {
                Err(MediaCombination::Never)
            } else {
                Err(MediaCombination::Nest)
            }
        },
        None => Err(MediaCombination::Nest),
    }
}

/// Whether a media condition has an `or` outside any parentheses, scanning
/// from `i` at depth `depth` with `prev` the character before.
pub open spec fn top_or_from(s: Seq<char>, i: int, depth: nat, prev: char) -> bool
    decreases s.len() - i,
{
    if i < 0 || i >= s.len() {
        false
    } else {
        let c = s[i];
        if c == '(' {
            top_or_from(s, i + 1, depth + 1, c)
        } else if c == ')' {
            top_or_from(
                s,
                i + 1,
                if depth > 0 {
                    (depth - 1) as nat
                } else {
                    0
                },
                c,
            )
        } else if depth == 0 && !is_word_char(prev) && eq_ignore_case(
            leading_word(s.skip(i)),
            "or"@,
        ) {
            true
        } else {
            top_or_from(s, i + 1, depth, c)
        }
    }
}

pub open spec fn has_top_or(s: Seq<char>) -> bool {
    top_or_from(s, 0, 0, ' ')
}

fn has_top_level_or(s: &[char]) -> (r: bool)
    ensures
        r == has_top_or(s@),
{
    let or_ = chars_of("or");
    let mut depth: usize = 0;
    let mut prev = ' ';
    let mut i: usize = 0;
    while i < s.len()
        invariant
            i <= s@.len(),
            depth <= i,
            or_@ == "or"@,
            has_top_or(s@) == top_or_from(s@, i as int, depth as nat, prev),
        decreases s@.len() - i,
    {
        let c = s[i];
        let ghost d0 = depth as nat;
        let ghost p0 = prev;
        assert(s@[i as int] == c);
        assert(0 <= i < s@.len());
        if c == '(' {
            depth = depth + 1;
        } else if c == ')' {
            if depth > 0 {
                depth = depth - 1;
            }
        } else if depth == 0 && !word_char(prev) {
            let n = word_prefix_at(s, i, s.len());
            let hit = eq_ignore_case_at(s, i, i + n, &or_);
            proof {
                assert(s@.skip(i as int) == s@.subrange(i as int, s@.len() as int));
                assert(leading_word(s@.skip(i as int)) == s@.subrange(i as int, i + n));
                assert(or_@ == "or"@);
                assert(eq_ignore_case(leading_word(s@.skip(i as int)), "or"@) == hit);
            }
            if hit {
                assert(top_or_from(s@, i as int, d0, p0));
                return true;
            }
        }
        assert(top_or_from(s@, i as int, d0, p0) == top_or_from(s@, i + 1, depth as nat, c));
        prev = c;
        i = i + 1;
    }
    false
}

/// The media type unless it is `all` (which adds nothing).
pub open spec fn specific(t: Option<Seq<char>>) -> Option<Seq<char>> {
    match t {
        Some(m) => if eq_ignore_case(m, "all"@) {
            None
        } else {
            Some(m)
        },
        None => None,
    }
}

/// A condition as written inside a combined query: parenthesized when it
/// has a top-level `or` and shares the query with something else, or when it
/// is joined to another condition and starts with `not`.
pub open spec fn cond_piece(c: Seq<char>, joined: bool, typed: bool) -> Seq<char> {
    if (has_top_or(c) && (joined || typed)) || (joined && eq_ignore_case(leading_word(c), "not"@)) {
        seq!['('] + c + seq![')']
    } else {
        c
    }
}

/// The conditions of two queries, in order.
pub open spec fn conditions(a: Option<Seq<char>>, b: Option<Seq<char>>) -> Seq<Seq<char>> {
    match (a, b) {
        (Some(x), Some(y)) => seq![x, y],
        (Some(x), None) => seq![x],
        (None, Some(y)) => seq![y],
        (None, None) => seq![],
    }
}

/// The text of one combined query: `[only ]type[ and ]` then the conditions
/// joined by `and `, or `all` when nothing is left.
pub open spec fn combined_text(
    media_type: Option<Seq<char>>,
    only: bool,
    conds: Seq<Seq<char>>,
) -> Seq<char> {
    let joined = conds.len() > 1;
    let typed = media_type.is_some();
    let head = match media_type {
        Some(m) => (if only {
            "only "@
        } else {
            seq![]
        }) + m + (if conds.len() > 0 {
            " and "@
        } else {
            seq![]
        }),
        None => seq![],
    };
    let body = if conds.len() == 0 {
        seq![]
    } else if conds.len() == 1 {
        cond_piece(conds[0], joined, typed)
    } else {
        cond_piece(conds[0], joined, typed) + "and "@ + cond_piece(conds[1], joined, typed)
    };
    let res = head + body;
    if res.len() == 0 {
        "all"@
    } else {
        res
    }
}

/// Fold two single media queries.
pub open spec fn combine_one(outer: MediaQueryView, inner: MediaQueryView) -> MediaFold {
    match (resolve_neg(outer), resolve_neg(inner)) {
        (Ok(o), Ok(i)) => {
            let mt = match (specific(o.media_type), specific(i.media_type)) {
                (None, m) => Some(m),
                (m, None) => Some(m),
                (Some(a), Some(b)) => if eq_ignore_case(a, b) {
                    Some(Some(a))
                } else {
                    None
                },
            };
            match mt {
                None => MediaFold::Never,
                Some(t) => MediaFold::Merged(
                    combined_text(t, o.only || i.only, conditions(o.condition, i.condition)),
                ),
            }
        },
        (Err(MediaFold::Never), _) => MediaFold::Never,
        (_, Err(MediaFold::Never)) => MediaFold::Never,
        _ => MediaFold::Nest,
    }
}

fn push_cond(out: &mut Vec<char>, c: &Vec<char>, joined: bool, typed: bool)
    ensures
        final(out)@ == old(out)@ + cond_piece(c@, joined, typed),
{
    let not_ = chars_of("not");
    let n = word_prefix_at(c, 0, c.len());
    assert(c@.subrange(0, c@.len() as int) == c@);
    let wrap = (has_top_level_or(c) && (joined || typed)) || (joined && eq_ignore_case_at(
        c,
        0,
        n,
        &not_,
    ));
    if wrap {
        out.push('(');
        push_all(out, c);
        out.push(')');
        assert(old(out)@ + cond_piece(c@, joined, typed) == old(out)@.push('(') + c@ + seq![')']);
    } else {
        push_all(out, c);
    }
}

fn specific_type(t: Option<Vec<char>>) -> (r: Option<Vec<char>>)
    ensures
        opt_view(r) == specific(opt_view(t)),
{
    let all_ = chars_of("all");
    match t {
        Some(t) => {
            assert(t@.subrange(0, t@.len() as int) == t@);
            if eq_ignore_case_at(&t, 0, t.len(), &all_) {
                None
            } else {
                Some(t)
            }
        },
        None => None,
    }
}

fn build_combined(media_type: Option<Vec<char>>, only: bool, conds: &Vec<Vec<char>>) -> (r: Vec<char>)
    requires
        conds@.len() <= 2,
    ensures
        r@ == combined_text(opt_view(media_type), only, views(conds@)),
{
    let joined = conds.len() > 1;
    let typed = media_type.is_some();
    let mut result: Vec<char> = Vec::new();
    match media_type {
        Some(m) => {
            if only {
                push_chars(&mut result, "only ");
            }
            push_all(&mut result, &m);
            if conds.len() > 0 {
                push_chars(&mut result, " and ");
            }
        },
        None => {},
    }
    let ghost head = result@;
    if conds.len() > 0 {
        push_cond(&mut result, &conds[0], joined, typed);
    }
    if conds.len() > 1 {
        push_chars(&mut result, "and ");
        push_cond(&mut result, &conds[1], joined, typed);
    }
    proof {
        let cs = views(conds@);
        if cs.len() == 2 {
            assert(result@ == head + (cond_piece(cs[0], joined, typed) + "and "@ + cond_piece(
                cs[1],
                joined,
                typed,
            )));
        }
        if cs.len() == 1 {
            assert(result@ == head + cond_piece(cs[0], joined, typed));
        }
        if cs.len() == 0 {
            assert(result@ == head + seq![]);
        }
    }
    if result.len() == 0 {
        push_chars(&mut result, "all");
    }
    result
}

fn combine_single(outer: MediaQuery, inner: MediaQuery) -> (r: MediaCombination)
    ensures
        r@ == combine_one(outer@, inner@),
{
    let (o, i) = match (resolve_negation(outer), resolve_negation(inner)) {
        (Ok(o), Ok(i)) => (o, i),
        (Err(MediaCombination::Never), _) => {
            return MediaCombination::Never;
        },
        (_, Err(MediaCombination::Never)) => {
            return MediaCombination::Never;
        },
        _ => {
            return MediaCombination::Nest;
        },
    };
    let only = o.only || i.only;
    let ghost ov = o@;
    let ghost iv = i@;
    let o_type = specific_type(o.media_type);
    let i_type = specific_type(i.media_type);
    let media_type: Option<Vec<char>> = match (o_type, i_type) {
        (None, m) => m,
        (m, None) => m,
        (Some(a), Some(b)) => {
            assert(b@.subrange(0, b@.len() as int) == b@);
            if eq_ignore_case_at(&b, 0, b.len(), &a) {
                assert(eq_ignore_case(a@, b@));
                Some(a)
            } else {
                assert(!eq_ignore_case(a@, b@));
                return MediaCombination::Never;
            }
        },
    };
    let mut conds: Vec<Vec<char>> = Vec::new();
    match o.condition {
        Some(c) => conds.push(c),
        None => {},
    }
    match i.condition {
        Some(c) => conds.push(c),
        None => {},
    }
    assert(views(conds@) == conditions(ov.condition, iv.condition));
    let result = build_combined(media_type, only, &conds);
    MediaCombination::Merged(string_from(&result))
}

/// The parts of `m` joined by `sep`.
pub open spec fn join_with(m: Seq<Seq<char>>, sep: Seq<char>) -> Seq<char>
    decreases m.len(),
{
    if m.len() == 0 {
        seq![]
    } else if m.len() == 1 {
        m[0]
    } else {
        join_with(m.drop_last(), sep) + sep + m.last()
    }
}

/// Fold the pair (`o`, `i`) into the queries merged so far; `None` asks for
/// nesting.
pub open spec fn fold_pair(o: Seq<char>, i: Seq<char>, merged: Seq<Seq<char>>) -> Option<
    Seq<Seq<char>>,
> {
    match (parse_mq(o), parse_mq(i)) {
        (Some(a), Some(b)) => match combine_one(a, b) {
            MediaFold::Merged(q) => Some(
                if merged.contains(q) {
                    merged
                } else {
                    merged.push(q)
                },
            ),
            MediaFold::Never => Some(merged),
            MediaFold::Nest => None,
        },
        _ => None,
    }
}

/// Fold `o` with each inner query from `j` on.
pub open spec fn fold_inner(o: Seq<char>, inner: Seq<Seq<char>>, j: int, merged: Seq<Seq<char>>) -> Option<
    Seq<Seq<char>>,
>
    decreases inner.len() - j,
{
    if j < 0 || j >= inner.len() {
        Some(merged)
    } else {
        match fold_pair(o, inner[j], merged) {
            Some(m) => fold_inner(o, inner, j + 1, m),
            None => None,
        }
    }
}

/// Fold each outer query from `a` on with every inner query.
pub open spec fn fold_outer(
    outer: Seq<Seq<char>>,
    inner: Seq<Seq<char>>,
    a: int,
    merged: Seq<Seq<char>>,
) -> Option<Seq<Seq<char>>>
    decreases outer.len() - a,
{
    if a < 0 || a >= outer.len() {
        Some(merged)
    } else {
        match fold_inner(outer[a], inner, 0, merged) {
            Some(m) => fold_outer(outer, inner, a + 1, m),
            None => None,
        }
    }
}

/// `inner` folded into `outer`: every pair of their queries combined, the
/// distinct results in order joined by commas; `Never` when no pair can hold,
/// `Nest` when some pair has no single spelling.
pub open spec fn combine_spec(outer: Seq<char>, inner: Seq<char>) -> MediaFold {
    match fold_outer(split_list(outer), split_list(inner), 0, seq![]) {
        None => MediaFold::Nest,
        Some(m) => if m.len() == 0 {
            MediaFold::Never
        } else {
            MediaFold::Merged(join_with(m, ","@))
        },
    }
}

fn contains_query(merged: &Vec<Vec<char>>, q: &Vec<char>) -> (r: bool)
    ensures
        r == views(merged@).contains(q@),
{
    let mut k: usize = 0;
    while k < merged.len()
        invariant
            k <= merged@.len(),
            forall|j: int| 0 <= j < k ==> views(merged@)[j] != q@,
        decreases merged@.len() - k,
    {
        if chars_eq(&merged[k], q) {
            assert(views(merged@)[k as int] == q@);
            return true;
        }
        k = k + 1;
    }
    false
}

fn join_commas(m: &Vec<Vec<char>>) -> (r: Vec<char>)
    ensures
        r@ == join_with(views(m@), ","@),
{
    proof {
        reveal_strlit(",");
    }
    let mut out: Vec<char> = Vec::new();
    let mut k: usize = 0;
    while k < m.len()
        invariant
            k <= m@.len(),
            out@ == join_with(views(m@).take(k as int), ","@),
            ","@ == seq![','],
        decreases m@.len() - k,
    {
        if k > 0 {
            out.push(',');
        }
        push_all(&mut out, &m[k]);
        proof {
            let t = views(m@).take(k + 1);
            assert(t.drop_last() == views(m@).take(k as int));
            if k == 0 {
                assert(t == seq![m@[0]@]);
            }
        }
        k = k + 1;
    }
    assert(views(m@).take(m@.len() as int) == views(m@));
    out
}

/// Two queries fold alike: both malformed, or both parse and resolve their
/// negation to the same query (or to the same refusal).
pub open spec fn same_resolved(a: Seq<char>, b: Seq<char>) -> bool {
    match (parse_mq(a), parse_mq(b)) {
        (Some(x), Some(y)) => resolve_neg(x) == resolve_neg(y),
        (None, None) => true,
        _ => false,
    }
}

proof fn lemma_fold_inner_resolved(
    o: Seq<char>,
    in1: Seq<Seq<char>>,
    in2: Seq<Seq<char>>,
    j: int,
    m: Seq<Seq<char>>,
)
    requires
        in1.len() == in2.len(),
        forall|k: int| 0 <= k < in1.len() ==> same_resolved(#[trigger] in1[k], in2[k]),
    ensures
        fold_inner(o, in1, j, m) == fold_inner(o, in2, j, m),
    decreases in1.len() - j,
{
    if 0 <= j < in1.len() {
        assert(same_resolved(in1[j], in2[j]));
        assert(fold_pair(o, in1[j], m) == fold_pair(o, in2[j], m));
        match fold_pair(o, in1[j], m) {
            Some(m2) => lemma_fold_inner_resolved(o, in1, in2, j + 1, m2),
            None => {},
        }
    }
}

proof fn lemma_fold_outer_resolved(
    out: Seq<Seq<char>>,
    in1: Seq<Seq<char>>,
    in2: Seq<Seq<char>>,
    a: int,
    m: Seq<Seq<char>>,
)
    requires
        in1.len() == in2.len(),
        forall|k: int| 0 <= k < in1.len() ==> same_resolved(#[trigger] in1[k], in2[k]),
    ensures
        fold_outer(out, in1, a, m) == fold_outer(out, in2, a, m),
    decreases out.len() - a,
{
    if 0 <= a < out.len() {
        lemma_fold_inner_resolved(out[a], in1, in2, 0, m);
        match fold_inner(out[a], in1, 0, m) {
            Some(m2) => lemma_fold_outer_resolved(out, in1, in2, a + 1, m2),
            None => {},
        }
    }
}

/// Folding depends on each inner query only through its resolved form:
/// when the two inner lists have the same number of queries and each pair
/// folds alike (for example `not print` and `screen`, or `not screen` and
/// `print`), folding either into the same outer list gives the same result.
pub proof fn law_combine_by_resolved_inner(outer: Seq<char>, inner1: Seq<char>, inner2: Seq<char>)
    requires
        split_list(inner1).len() == split_list(inner2).len(),
        forall|k: int|
            0 <= k < split_list(inner1).len() ==> same_resolved(
                #[trigger] split_list(inner1)[k],
                split_list(inner2)[k],
            ),
    ensures
        combine_spec(outer, inner1) == combine_spec(outer, inner2),
{
    lemma_fold_outer_resolved(split_list(outer), split_list(inner1), split_list(inner2), 0, seq![]);
}

/// `not print` folds as `screen` and `not screen` as `print`: combined with
/// any outer query, a negated `print` (or `screen`) with no condition gives
/// what a plain `screen` (or `print`) gives.
pub proof fn law_negated_media_types(o: MediaQueryView, only: bool)
    ensures
        combine_one(
            o,
            MediaQueryView { negated: true, only, media_type: Some("print"@), condition: None },
        ) == combine_one(
            o,
            MediaQueryView { negated: false, only: false, media_type: Some("screen"@), condition: None },
        ),
        combine_one(
            o,
            MediaQueryView { negated: true, only, media_type: Some("screen"@), condition: None },
        ) == combine_one(
            o,
            MediaQueryView { negated: false, only: false, media_type: Some("print"@), condition: None },
        ),
{
    reveal_strlit("print");
    reveal_strlit("screen");
    assert(eq_ignore_case("print"@, "print"@));
    assert(eq_ignore_case("screen"@, "screen"@));
    assert(!eq_ignore_case("screen"@, "print"@));
}

proof fn lemma_single_query(q: Seq<char>)
    requires
        q.len() > 0,
        !is_unicode_ws(q[0]),
        !is_unicode_ws(q.last()),
        forall|i: int| 0 <= i < q.len() ==> q[i] != ',' && q[i] != '(' && q[i] != ')',
    ensures
        split_list(q) == seq![q],
{
    assert forall|i: int| 0 <= i <= q.len() implies #[trigger] split_from(q, i, 0, 0) == seq![trim(q.subrange(0, q.len() as int))] by {
        lemma_split_plain(q, i);
    }
    assert(q.subrange(0, q.len() as int) =~= q);
    assert(trim_start(q) == q);
    assert(trim_end(q) == q);
}

proof fn lemma_split_plain(q: Seq<char>, i: int)
    requires
        0 <= i <= q.len(),
        forall|k: int| 0 <= k < q.len() ==> q[k] != ',' && q[k] != '(' && q[k] != ')',
    ensures
        split_from(q, i, 0, 0) == seq![trim(q.subrange(0, q.len() as int))],
    decreases q.len() - i,
{
    if i < q.len() {
        lemma_split_plain(q, i + 1);
    }
}

proof fn lemma_word_prefix_len(s: Seq<char>, n: int)
    requires
        0 <= n <= s.len(),
        forall|k: int| 0 <= k < n ==> is_word_char(#[trigger] s[k]),
        n == s.len() || !is_word_char(s[n]),
    ensures
        word_prefix_len(s) == n,
    decreases n,
{
    if n > 0 {
        let t = s.drop_first();
        assert forall|k: int| 0 <= k < n - 1 implies is_word_char(#[trigger] t[k]) by {
            assert(t[k] == s[k + 1]);
        }
        if n < s.len() {
            assert(t[n - 1] == s[n]);
        }
        lemma_word_prefix_len(t, n - 1);
    }
}

/// `not print` folds into any outer query list as `screen` does, and
/// `not screen` as `print`.
pub proof fn law_not_print_is_screen(outer: Seq<char>)
    ensures
        combine_spec(outer, "not print"@) == combine_spec(outer, "screen"@),
        combine_spec(outer, "not screen"@) == combine_spec(outer, "print"@),
{
    reveal_strlit("not print");
    reveal_strlit("screen");
    reveal_strlit("not screen");
    reveal_strlit("print");
    reveal_strlit("not");
    reveal_strlit("only");
    reveal_strlit("and");
    reveal_strlit("or");
    reveal_strlit("all");
    let np = "not print"@;
    let sc = "screen"@;
    let ns = "not screen"@;
    let pr = "print"@;
    lemma_single_query(np);
    lemma_single_query(sc);
    lemma_single_query(ns);
    lemma_single_query(pr);
    lemma_word_prefix_len(np, 3);
    lemma_word_prefix_len(ns, 3);
    lemma_word_prefix_len(sc, 6);
    lemma_word_prefix_len(pr, 5);
    lemma_word_prefix_len(np.skip(4), 5);
    lemma_word_prefix_len(ns.skip(4), 6);
    assert(np.take(3) =~= "not"@);
    assert(ns.take(3) =~= "not"@);
    assert(np.skip(3).drop_first() =~= pr);
    assert(ns.skip(3).drop_first() =~= sc);
    assert(np.skip(4) =~= pr);
    assert(ns.skip(4) =~= sc);
    assert(sc.take(6) =~= sc);
    assert(pr.take(5) =~= pr);
    assert(eq_ignore_case("not"@, "not"@));
    assert(eq_ignore_case(pr, pr));
    assert(eq_ignore_case(sc, sc));
    assert(!eq_ignore_case(sc, "not"@));
    assert(!eq_ignore_case(pr, "not"@));
    assert(!eq_ignore_case(sc, "only"@));
    assert(!eq_ignore_case(pr, "only"@));
    assert(!eq_ignore_case(sc, pr));
    assert(!is_keyword(pr));
    assert(!is_keyword(sc));
    assert(pr.skip(5) =~= Seq::<char>::empty());
    assert(sc.skip(6) =~= Seq::<char>::empty());
    assert(parse_mq(np) == Some(MediaQueryView { negated: true, only: false, media_type: Some(pr), condition: None }));
    assert(parse_mq(sc) == Some(MediaQueryView { negated: false, only: false, media_type: Some(sc), condition: None }));
    assert(parse_mq(ns) == Some(MediaQueryView { negated: true, only: false, media_type: Some(sc), condition: None }));
    assert(parse_mq(pr) == Some(MediaQueryView { negated: false, only: false, media_type: Some(pr), condition: None }));
    assert(same_resolved(split_list(np)[0], split_list(sc)[0]));
    assert(same_resolved(split_list(ns)[0], split_list(pr)[0]));
    law_combine_by_resolved_inner(outer, np, sc);
    law_combine_by_resolved_inner(outer, ns, pr);
}

/// Fold `inner` into `outer` so that one `@media` holds exactly when both
/// would. Both preludes should already be normalized.
pub fn combine_media_queries(outer: &str, inner: &str) -> (r: MediaCombination)
    ensures
        r@ == combine_spec(outer@, inner@),
{
    let ov = chars_of(outer);
    let iv = chars_of(inner);
    let outs = split_list_chars(&ov);
    let ins = split_list_chars(&iv);
    let ghost os = views(outs@);
    let ghost is = views(ins@);
    let mut merged: Vec<Vec<char>> = Vec::new();
    assert(views(merged@) == Seq::<Seq<char>>::empty());
    let mut a: usize = 0;
    while a < outs.len()
        invariant
            a <= outs@.len(),
            os == views(outs@),
            is == views(ins@),
            os == split_list(outer@),
            is == split_list(inner@),
            fold_outer(os, is, 0, seq![]) == fold_outer(os, is, a as int, views(merged@)),
        decreases outs@.len() - a,
    {
        let ghost m0 = views(merged@);
        let mut b: usize = 0;
        while b < ins.len()
            invariant
                a < outs@.len(),
                b <= ins@.len(),
                os == views(outs@),
                is == views(ins@),
                os == split_list(outer@),
                is == split_list(inner@),
                fold_outer(os, is, 0, seq![]) == fold_outer(os, is, a as int, m0),
                fold_inner(os[a as int], is, 0, m0) == fold_inner(os[a as int], is, b as int, views(merged@)),
            decreases ins@.len() - b,
        {
            let po = parse_media_query(&outs[a]);
            let pi = parse_media_query(&ins[b]);
            match (po, pi) {
                (Some(x), Some(y)) => {
                    let c = combine_single(x, y);
                    match c {
                        MediaCombination::Merged(q) => {
                            let qv = chars_of(q.as_str());
                            if !contains_query(&merged, &qv) {
                                let ghost old_m = views(merged@);
                                merged.push(qv);
                                assert(views(merged@) == old_m.push(qv@));
                            }
                        },
                        MediaCombination::Never => {},
                        MediaCombination::Nest => {
                            assert(fold_inner(os[a as int], is, b as int, views(merged@)).is_none());
                            assert(fold_outer(os, is, a as int, m0).is_none());
                            return MediaCombination::Nest;
                        },
                    }
                },
                _ => {
                    assert(fold_inner(os[a as int], is, b as int, views(merged@)).is_none());
                    assert(fold_outer(os, is, a as int, m0).is_none());
                    return MediaCombination::Nest;
                },
            }
            b = b + 1;
        }
        assert(fold_inner(os[a as int], is, b as int, views(merged@)) == Some(views(merged@)));
        a = a + 1;
    }
    if merged.len() == 0 {
        MediaCombination::Never
    } else {
        let j = join_commas(&merged);
        MediaCombination::Merged(string_from(&j))
    }
}

/// The media query a media shorthand stands for, keyed by kebab-cased name.
pub open spec fn shorthand(k: Seq<char>) -> Option<Seq<char>> {
    if k == "all"@ {
        Some("all"@)
    } else if k == "contrast-less"@ {
        Some("(prefers-contrast:less)"@)
    } else if k == "contrast-more"@ {
        Some("(prefers-contrast:more)"@)
    } else if k == "forced-colors"@ {
        Some("(forced-colors:active)"@)
    } else if k == "landscape"@ {
        Some("(orientation:landscape)"@)
    } else if k == "motion-reduce"@ {
        Some("(prefers-reduced-motion:reduce)"@)
    } else if k == "motion-safe"@ {
        Some("(prefers-reduced-motion:no-preference)"@)
    } else if k == "portrait"@ {
        Some("(orientation:portrait)"@)
    } else if k == "print"@ {
        Some("print"@)
    } else if k == "screen"@ {
        Some("screen"@)
    } else {
        None
    }
}

/// The shorthand a media query is written with, when one is.
spec fn shorthand_key(q: Seq<char>) -> Seq<char> {
    if q == "all"@ {
        "all"@
    } else if q == "(prefers-contrast:less)"@ {
        "contrast-less"@
    } else if q == "(prefers-contrast:more)"@ {
        "contrast-more"@
    } else if q == "(forced-colors:active)"@ {
        "forced-colors"@
    } else if q == "(orientation:landscape)"@ {
        "landscape"@
    } else if q == "(prefers-reduced-motion:reduce)"@ {
        "motion-reduce"@
    } else if q == "(prefers-reduced-motion:no-preference)"@ {
        "motion-safe"@
    } else if q == "(orientation:portrait)"@ {
        "portrait"@
    } else if q == "print"@ {
        "print"@
    } else if q == "screen"@ {
        "screen"@
    } else {
        q
    }
}

proof fn lemma_shorthand_queries_distinct()
    ensures
        "all"@ != "(prefers-contrast:less)"@,
        "all"@ != "(prefers-contrast:more)"@,
        "all"@ != "(forced-colors:active)"@,
        "all"@ != "(orientation:landscape)"@,
        "all"@ != "(prefers-reduced-motion:reduce)"@,
        "all"@ != "(prefers-reduced-motion:no-preference)"@,
        "all"@ != "(orientation:portrait)"@,
        "all"@ != "print"@,
        "all"@ != "screen"@,
        "(prefers-contrast:less)"@ != "(prefers-contrast:more)"@,
        "(prefers-contrast:less)"@ != "(forced-colors:active)"@,
        "(prefers-contrast:less)"@ != "(orientation:landscape)"@,
        "(prefers-contrast:less)"@ != "(prefers-reduced-motion:reduce)"@,
        "(prefers-contrast:less)"@ != "(prefers-reduced-motion:no-preference)"@,
        "(prefers-contrast:less)"@ != "(orientation:portrait)"@,
        "(prefers-contrast:less)"@ != "print"@,
        "(prefers-contrast:less)"@ != "screen"@,
        "(prefers-contrast:more)"@ != "(forced-colors:active)"@,
        "(prefers-contrast:more)"@ != "(orientation:landscape)"@,
        "(prefers-contrast:more)"@ != "(prefers-reduced-motion:reduce)"@,
        "(prefers-contrast:more)"@ != "(prefers-reduced-motion:no-preference)"@,
        "(prefers-contrast:more)"@ != "(orientation:portrait)"@,
        "(prefers-contrast:more)"@ != "print"@,
        "(prefers-contrast:more)"@ != "screen"@,
        "(forced-colors:active)"@ != "(orientation:landscape)"@,
        "(forced-colors:active)"@ != "(prefers-reduced-motion:reduce)"@,
        "(forced-colors:active)"@ != "(prefers-reduced-motion:no-preference)"@,
        "(forced-colors:active)"@ != "(orientation:portrait)"@,
        "(forced-colors:active)"@ != "print"@,
        "(forced-colors:active)"@ != "screen"@,
        "(orientation:landscape)"@ != "(prefers-reduced-motion:reduce)"@,
        "(orientation:landscape)"@ != "(prefers-reduced-motion:no-preference)"@,
        "(orientation:landscape)"@ != "(orientation:portrait)"@,
        "(orientation:landscape)"@ != "print"@,
        "(orientation:landscape)"@ != "screen"@,
        "(prefers-reduced-motion:reduce)"@ != "(prefers-reduced-motion:no-preference)"@,
        "(prefers-reduced-motion:reduce)"@ != "(orientation:portrait)"@,
        "(prefers-reduced-motion:reduce)"@ != "print"@,
        "(prefers-reduced-motion:reduce)"@ != "screen"@,
        "(prefers-reduced-motion:no-preference)"@ != "(orientation:portrait)"@,
        "(prefers-reduced-motion:no-preference)"@ != "print"@,
        "(prefers-reduced-motion:no-preference)"@ != "screen"@,
        "(orientation:portrait)"@ != "print"@,
        "(orientation:portrait)"@ != "screen"@,
        "print"@ != "screen"@,
{
    reveal_strlit("all");
    reveal_strlit("contrast-less");
    reveal_strlit("contrast-more");
    reveal_strlit("forced-colors");
    reveal_strlit("landscape");
    reveal_strlit("motion-reduce");
    reveal_strlit("motion-safe");
    reveal_strlit("portrait");
    reveal_strlit("print");
    reveal_strlit("screen");
    reveal_strlit("(prefers-contrast:less)");
    reveal_strlit("(prefers-contrast:more)");
    reveal_strlit("(forced-colors:active)");
    reveal_strlit("(orientation:landscape)");
    reveal_strlit("(prefers-reduced-motion:reduce)");
    reveal_strlit("(prefers-reduced-motion:no-preference)");
    reveal_strlit("(orientation:portrait)");
    assert("all"@.len() != "(prefers-contrast:less)"@.len());
    assert("all"@.len() != "(prefers-contrast:more)"@.len());
    assert("all"@.len() != "(forced-colors:active)"@.len());
    assert("all"@.len() != "(orientation:landscape)"@.len());
    assert("all"@.len() != "(prefers-reduced-motion:reduce)"@.len());
    assert("all"@.len() != "(prefers-reduced-motion:no-preference)"@.len());
    assert("all"@.len() != "(orientation:portrait)"@.len());
    assert("all"@.len() != "print"@.len());
    assert("all"@.len() != "screen"@.len());
    assert("(prefers-contrast:less)"@[18] != "(prefers-contrast:more)"@[18]);
    assert("(prefers-contrast:less)"@ != "(prefers-contrast:more)"@);
    assert("(prefers-contrast:less)"@.len() != "(forced-colors:active)"@.len());
    assert("(prefers-contrast:less)"@[1] != "(orientation:landscape)"@[1]);
    assert("(prefers-contrast:less)"@ != "(orientation:landscape)"@);
    assert("(prefers-contrast:less)"@.len() != "(prefers-reduced-motion:reduce)"@.len());
    assert("(prefers-contrast:less)"@.len() != "(prefers-reduced-motion:no-preference)"@.len());
    assert("(prefers-contrast:less)"@.len() != "(orientation:portrait)"@.len());
    assert("(prefers-contrast:less)"@.len() != "print"@.len());
    assert("(prefers-contrast:less)"@.len() != "screen"@.len());
    assert("(prefers-contrast:more)"@.len() != "(forced-colors:active)"@.len());
    assert("(prefers-contrast:more)"@[1] != "(orientation:landscape)"@[1]);
    assert("(prefers-contrast:more)"@ != "(orientation:landscape)"@);
    assert("(prefers-contrast:more)"@.len() != "(prefers-reduced-motion:reduce)"@.len());
    assert("(prefers-contrast:more)"@.len() != "(prefers-reduced-motion:no-preference)"@.len());
    assert("(prefers-contrast:more)"@.len() != "(orientation:portrait)"@.len());
    assert("(prefers-contrast:more)"@.len() != "print"@.len());
    assert("(prefers-contrast:more)"@.len() != "screen"@.len());
    assert("(forced-colors:active)"@.len() != "(orientation:landscape)"@.len());
    assert("(forced-colors:active)"@.len() != "(prefers-reduced-motion:reduce)"@.len());
    assert("(forced-colors:active)"@.len() != "(prefers-reduced-motion:no-preference)"@.len());
    assert("(forced-colors:active)"@[1] != "(orientation:portrait)"@[1]);
    assert("(forced-colors:active)"@ != "(orientation:portrait)"@);
    assert("(forced-colors:active)"@.len() != "print"@.len());
    assert("(forced-colors:active)"@.len() != "screen"@.len());
    assert("(orientation:landscape)"@.len() != "(prefers-reduced-motion:reduce)"@.len());
    assert("(orientation:landscape)"@.len() != "(prefers-reduced-motion:no-preference)"@.len());
    assert("(orientation:landscape)"@.len() != "(orientation:portrait)"@.len());
    assert("(orientation:landscape)"@.len() != "print"@.len());
    assert("(orientation:landscape)"@.len() != "screen"@.len());
    assert("(prefers-reduced-motion:reduce)"@.len() != "(prefers-reduced-motion:no-preference)"@.len());
    assert("(prefers-reduced-motion:reduce)"@.len() != "(orientation:portrait)"@.len());
    assert("(prefers-reduced-motion:reduce)"@.len() != "print"@.len());
    assert("(prefers-reduced-motion:reduce)"@.len() != "screen"@.len());
    assert("(prefers-reduced-motion:no-preference)"@.len() != "(orientation:portrait)"@.len());
    assert("(prefers-reduced-motion:no-preference)"@.len() != "print"@.len());
    assert("(prefers-reduced-motion:no-preference)"@.len() != "screen"@.len());
    assert("(orientation:portrait)"@.len() != "print"@.len());
    assert("(orientation:portrait)"@.len() != "screen"@.len());
    assert("print"@.len() != "screen"@.len());
}

/// A media shorthand is found again from the query it stands for.
proof fn lemma_shorthand_key(a: Seq<char>)
    requires
        shorthand(a).is_some(),
    ensures
        shorthand_key(shorthand(a).unwrap()) == a,
{
    lemma_shorthand_queries_distinct();
}

/// Distinct media shorthands stand for distinct media queries.
pub proof fn law_media_shorthands_distinct(a: Seq<char>, b: Seq<char>)
    requires
        shorthand(a).is_some(),
        shorthand(a) == shorthand(b),
    ensures
        a == b,
{
    lemma_shorthand_key(a);
    lemma_shorthand_key(b);
}

/// The orientation shorthands `landscape` and `portrait` stand for the
/// `orientation` media feature with their own name as its value.
pub proof fn law_orientation_shorthands(k: Seq<char>)
    requires
        k == "landscape"@ || k == "portrait"@,
    ensures
        shorthand(k) == Some("(orientation:"@ + k + ")"@),
{
    reveal_strlit("all");
    reveal_strlit("contrast-less");
    reveal_strlit("contrast-more");
    reveal_strlit("forced-colors");
    reveal_strlit("landscape");
    reveal_strlit("motion-reduce");
    reveal_strlit("motion-safe");
    reveal_strlit("portrait");
    reveal_strlit("(orientation:");
    reveal_strlit(")");
    reveal_strlit("(orientation:landscape)");
    reveal_strlit("(orientation:portrait)");
    assert("(orientation:"@ + "landscape"@ + ")"@ =~= "(orientation:landscape)"@);
    assert("(orientation:"@ + "portrait"@ + ")"@ =~= "(orientation:portrait)"@);
}

fn is_key(k: &Vec<char>, key: &str) -> (r: bool)
    ensures
        r == (k@ == key@),
{
    let kv = chars_of(key);
    chars_eq(k, &kv)
}

/// The media query a shorthand prop (`print`, `motionReduce`,
/// `motion-reduce`, ...) stands for.
pub fn media_shorthand_query(name: &str) -> (r: Option<&'static str>)
    ensures
        match r {
            Some(q) => shorthand(kebab(name@)) == Some(q@),
            None => shorthand(kebab(name@)).is_none(),
        },
{
    let nv = chars_of(name);
    let k = kebab_chars(&nv);
    if is_key(&k, "all") {
        Some("all")
    } else if is_key(&k, "contrast-less") {
        Some("(prefers-contrast:less)")
    } else if is_key(&k, "contrast-more") {
        Some("(prefers-contrast:more)")
    } else if is_key(&k, "forced-colors") {
        Some("(forced-colors:active)")
    } else if is_key(&k, "landscape") {
        Some("(orientation:landscape)")
    } else if is_key(&k, "motion-reduce") {
        Some("(prefers-reduced-motion:reduce)")
    } else if is_key(&k, "motion-safe") {
        Some("(prefers-reduced-motion:no-preference)")
    } else if is_key(&k, "portrait") {
        Some("(orientation:portrait)")
    } else if is_key(&k, "print") {
        Some("print")
    } else if is_key(&k, "screen") {
        Some("screen")
    } else {
        None
    }
}

/// The prelude after an at-rule name: present when it starts with a space or
/// `(` and is not blank, then trimmed.
pub open spec fn at_query(after: Seq<char>) -> Option<Seq<char>> {
    if after.len() > 0 && (after[0] == ' ' || after[0] == '(') && trim(after).len() > 0 {
        Some(trim(after))
    } else {
        None
    }
}

/// `@media print` split into its kind and prelude.
pub open spec fn split_key(key: Seq<char>) -> Option<(AtRuleKind, Seq<char>)> {
    let t = trim(key);
    if t.len() > 0 && t[0] == '@' {
        let rest = t.drop_first();
        if starts(rest, "media"@) && at_query(rest.skip(5)).is_some() {
            Some((AtRuleKind::Media, at_query(rest.skip(5)).unwrap()))
        } else if starts(rest, "supports"@) && at_query(rest.skip(8)).is_some() {
            Some((AtRuleKind::Supports, at_query(rest.skip(8)).unwrap()))
        } else if starts(rest, "container"@) && at_query(rest.skip(9)).is_some() {
            Some((AtRuleKind::Container, at_query(rest.skip(9)).unwrap()))
        } else {
            None
        }
    } else {
        None
    }
}

fn at_query_at(v: &[char], lo: usize, hi: usize) -> (r: Option<(usize, usize)>)
    requires
        lo <= hi <= v@.len(),
    ensures
        match r {
            Some((a, b)) => a <= b <= hi && at_query(v@.subrange(lo as int, hi as int)) == Some(
                v@.subrange(a as int, b as int),
            ),
            None => at_query(v@.subrange(lo as int, hi as int)).is_none(),
        },
{
    if lo < hi && (v[lo] == ' ' || v[lo] == '(') {
        let (a, b) = trim_bounds(v, lo, hi);
        if a < b {
            return Some((a, b));
        }
    }
    None
}

fn name_then_query(v: &[char], r0: usize, hi: usize, name: &str, n: usize) -> (r: Option<(usize, usize)>)
    requires
        r0 <= hi <= v@.len(),
        name@.len() == n,
    ensures
        match r {
            Some((a, b)) => a <= b <= hi && starts(v@.subrange(r0 as int, hi as int), name@)
                && at_query(v@.subrange(r0 as int, hi as int).skip(n as int)) == Some(
                v@.subrange(a as int, b as int),
            ),
            None => !(starts(v@.subrange(r0 as int, hi as int), name@) && at_query(
                v@.subrange(r0 as int, hi as int).skip(n as int),
            ).is_some()),
        },
{
    let nv = chars_of(name);
    let ghost rest = v@.subrange(r0 as int, hi as int);
    if !starts_with_at(v, r0, &nv) || n > hi - r0 {
        proof {
            if r0 + n <= hi {
                assert(rest.take(n as int) == v@.subrange(r0 as int, r0 + n));
            }
        }
        return None;
    }
    assert(rest.take(n as int) == v@.subrange(r0 as int, r0 + n));
    assert(rest.skip(n as int) == v@.subrange(r0 + n, hi as int));
    at_query_at(v, r0 + n, hi)
}

/// Split an at-rule key such as `@media print` into its kind and prelude.
pub fn split_at_rule_key(key: &str) -> (r: Option<(AtRuleKind, String)>)
    ensures
        match r {
            Some((k, q)) => split_key(key@) == Some((k, q@)),
            None => split_key(key@).is_none(),
        },
{
    let v = chars_of(key);
    let (lo, hi) = trim_bounds(&v, 0, v.len());
    assert(v@.subrange(0, v@.len() as int) == v@);
    if lo == hi || v[lo] != '@' {
        return None;
    }
    let ghost rest = v@.subrange(lo + 1, hi as int);
    assert(trim(key@).drop_first() == rest);
    proof {
        reveal_strlit("media");
        reveal_strlit("supports");
        reveal_strlit("container");
    }
    match name_then_query(&v, lo + 1, hi, "media", 5) {
        Some((a, b)) => {
            return Some((AtRuleKind::Media, string_of(&v, a, b)));
        },
        None => {},
    }
    match name_then_query(&v, lo + 1, hi, "supports", 8) {
        Some((a, b)) => {
            return Some((AtRuleKind::Supports, string_of(&v, a, b)));
        },
        None => {},
    }
    match name_then_query(&v, lo + 1, hi, "container", 9) {
        Some((a, b)) => {
            return Some((AtRuleKind::Container, string_of(&v, a, b)));
        },
        None => {},
    }
    None
}

/// The pieces of `s[start..]` between parentheses (`str::split(['(', ')'])`),
/// scanning from `i`.
pub open spec fn terms_from(s: Seq<char>, i: int, start: int) -> Seq<Seq<char>>
    decreases s.len() - i,
{
    if i < 0 || i >= s.len() {
        seq![s.subrange(start, s.len() as int)]
    } else if s[i] == '(' || s[i] == ')' {
        seq![s.subrange(start, i)] + terms_from(s, i + 1, i + 1)
    } else {
        terms_from(s, i + 1, start)
    }
}

/// Index of the first `<` or `>` in `t` at or after `i`.
pub open spec fn first_angle_from(t: Seq<char>, i: int) -> Option<int>
    decreases t.len() - i,
{
    if i < 0 || i >= t.len() {
        None
    } else if t[i] == '<' || t[i] == '>' {
        Some(i)
    } else {
        first_angle_from(t, i + 1)
    }
}

/// `t` without its leading `<`, `>` and `=` characters.
pub open spec fn strip_relation(t: Seq<char>) -> Seq<char>
    decreases t.len(),
{
    if t.len() > 0 && (t[0] == '<' || t[0] == '>' || t[0] == '=') {
        strip_relation(t.drop_first())
    } else {
        t
    }
}

/// The width bound one parenthesized term states, as (is a lower bound,
/// length text): `min-width:`, `max-width:`, or a range comparison with
/// `width` on either side.
pub open spec fn width_candidate(term: Seq<char>) -> Option<(bool, Seq<char>)> {
    if starts(term, "min-width:"@) {
        Some((true, term.skip(10)))
    } else if starts(term, "max-width:"@) {
        Some((false, term.skip(10)))
    } else {
        match first_angle_from(term, 0) {
            None => None,
            Some(k) => {
                let left = term.take(k);
                let right = term.skip(k);
                let lower = right[0] == '>';
                let r = strip_relation(right);
                if left == "width"@ {
                    Some((lower, r))
                } else if r == "width"@ || starts(r, "width<"@) || starts(r, "width>"@) {
                    Some((!lower, left))
                } else {
                    None
                }
            },
        }
    }
}

/// The width bounds of a sequence of terms, in order.
pub open spec fn candidates_of(ts: Seq<Seq<char>>) -> Seq<(bool, Seq<char>)>
    decreases ts.len(),
{
    if ts.len() == 0 {
        seq![]
    } else {
        let rest = candidates_of(ts.drop_last());
        match width_candidate(ts.last()) {
            Some(c) => rest.push(c),
            None => rest,
        }
    }
}

/// Every width bound a normalized query states, first to last; the first
/// whose length parses is the query's width bound.
pub open spec fn width_candidates_spec(query: Seq<char>) -> Seq<(bool, Seq<char>)> {
    candidates_of(terms_from(query, 0, 0))
}

fn width_candidate_at(v: &[char], lo: usize, hi: usize) -> (r: Option<(bool, Vec<char>)>)
    requires
        lo <= hi <= v@.len(),
    ensures
        match r {
            Some((b, t)) => width_candidate(v@.subrange(lo as int, hi as int)) == Some((b, t@)),
            None => width_candidate(v@.subrange(lo as int, hi as int)).is_none(),
        },
{
    let ghost term = v@.subrange(lo as int, hi as int);
    let min_ = chars_of("min-width:");
    let max_ = chars_of("max-width:");
    let width_ = chars_of("width");
    let width_lt = chars_of("width<");
    let width_gt = chars_of("width>");
    proof {
        reveal_strlit("min-width:");
        reveal_strlit("max-width:");
        reveal_strlit("width");
        reveal_strlit("width<");
        reveal_strlit("width>");
    }
    if hi - lo >= 10 && starts_with_at(v, lo, &min_) {
        assert(term.take(10) == v@.subrange(lo as int, lo + 10));
        assert(term.skip(10) == v@.subrange(lo + 10, hi as int));
        return Some((true, slice_copy(v, lo + 10, hi)));
    }
    if hi - lo >= 10 {
        assert(term.take(10) == v@.subrange(lo as int, lo + 10));
    }
    if hi - lo >= 10 && starts_with_at(v, lo, &max_) {
        assert(term.skip(10) == v@.subrange(lo + 10, hi as int));
        return Some((false, slice_copy(v, lo + 10, hi)));
    }
    let mut k = lo;
    while k < hi && v[k] != '<' && v[k] != '>'
        invariant
            lo <= k <= hi <= v@.len(),
            term == v@.subrange(lo as int, hi as int),
            first_angle_from(term, 0) == first_angle_from(term, k - lo),
        decreases hi - k,
    {
        k = k + 1;
    }
    if k == hi {
        return None;
    }
    assert(first_angle_from(term, 0) == Some((k - lo) as int));
    let lower = v[k] == '>';
    let mut j = k;
    while j < hi && (v[j] == '<' || v[j] == '>' || v[j] == '=')
        invariant
            k <= j <= hi <= v@.len(),
            strip_relation(v@.subrange(k as int, hi as int)) == strip_relation(v@.subrange(j as int, hi as int)),
        decreases hi - j,
    {
        assert(v@.subrange(j as int, hi as int).drop_first() == v@.subrange(j + 1, hi as int));
        j = j + 1;
    }
    let ghost r = v@.subrange(j as int, hi as int);
    assert(strip_relation(r) == r);
    assert(term.take(k - lo) == v@.subrange(lo as int, k as int));
    assert(term.skip(k - lo) == v@.subrange(k as int, hi as int));
    let left = slice_copy(v, lo, k);
    let right = slice_copy(v, j, hi);
    if chars_eq(&left, &width_) {
        return Some((lower, right));
    }
    let rw = chars_eq(&right, &width_) || (right.len() >= 6 && (starts_with_at(&right, 0, &width_lt)
        || starts_with_at(&right, 0, &width_gt)));
    proof {
        if right@.len() >= 6 {
            assert(right@.take(6) == right@.subrange(0, 6));
        }
    }
    if rw {
        Some((!lower, left))
    } else {
        None
    }
}

/// The width bounds stated by a normalized query, in order (see
/// [`width_candidates_spec`]); each carries the unparsed length text.
pub fn width_bound_candidates(query: &str) -> (r: Vec<(bool, String)>)
    ensures
        r@.len() == width_candidates_spec(query@).len(),
        forall|k: int|
            0 <= k < r@.len() ==> (#[trigger] r@[k]).0 == width_candidates_spec(query@)[k].0 && r@[k].1@
                == width_candidates_spec(query@)[k].1,
{
    let v = chars_of(query);
    let mut out: Vec<(bool, String)> = Vec::new();
    let mut start: usize = 0;
    let mut i: usize = 0;
    let ghost done: Seq<Seq<char>> = seq![];
    while i < v.len()
        invariant
            start <= i <= v@.len(),
            terms_from(v@, 0, 0) == done + terms_from(v@, i as int, start as int),
            out@.len() == candidates_of(done).len(),
            forall|k: int|
                0 <= k < out@.len() ==> (#[trigger] out@[k]).0 == candidates_of(done)[k].0 && out@[k].1@
                    == candidates_of(done)[k].1,
        decreases v@.len() - i,
    {
        if v[i] == '(' || v[i] == ')' {
            let c = width_candidate_at(&v, start, i);
            let ghost t = v@.subrange(start as int, i as int);
            proof {
                assert(done + terms_from(v@, i as int, start as int) == done.push(t) + terms_from(
                    v@,
                    i + 1,
                    i + 1,
                ));
                assert(done.push(t).drop_last() == done);
            }
            match c {
                Some((b, w)) => {
                    out.push((b, string_from(&w)));
                },
                None => {},
            }
            proof {
                done = done.push(t);
            }
            start = i + 1;
        }
        i = i + 1;
    }
    let c = width_candidate_at(&v, start, v.len());
    let ghost t = v@.subrange(start as int, v@.len() as int);
    proof {
        assert(done + terms_from(v@, i as int, start as int) == done.push(t));
        assert(done.push(t).drop_last() == done);
    }
    match c {
        Some((b, w)) => {
            out.push((b, string_from(&w)));
        },
        None => {},
    }
    out
}

/// The cascade sort key of an at-rule block, given the query's width bound
/// (the first candidate whose length parses, in hundredths of a pixel):
/// width queries first, mobile-first, then bare media types, then other
/// media features, then user preferences.
pub open spec fn query_order_spec(
    kind: AtRuleKind,
    query: Seq<char>,
    bound: Option<(bool, i64)>,
) -> (u8, i64) {
    if (kind == AtRuleKind::Media || kind == AtRuleKind::Container) && bound.is_some() {
        if bound.unwrap().0 {
            (0, bound.unwrap().1)
        } else {
            (1, (-bound.unwrap().1) as i64)
        }
    } else if kind != AtRuleKind::Media {
        (3, 0)
    } else if contains_seq(query, "prefers-"@) || contains_seq(query, "forced-colors"@) {
        (4, 0)
    } else if query.contains('(') {
        (3, 0)
    } else {
        (2, 0)
    }
}

/// A container width query is ordered by its width bound as a media one is:
/// a lower bound `px` gives `(0, px)`, an upper bound gives `(1, -px)`,
/// whatever the query's text.
pub proof fn law_container_width_like_media(q: Seq<char>, lower: bool, px: i64)
    requires
        i64::MIN < px,
    ensures
        query_order_spec(AtRuleKind::Container, q, Some((lower, px))) == query_order_spec(
            AtRuleKind::Media,
            q,
            Some((lower, px)),
        ),
        lower ==> query_order_spec(AtRuleKind::Container, q, Some((lower, px))) == (0u8, px),
        !lower ==> query_order_spec(AtRuleKind::Container, q, Some((lower, px))).0 == 1 && query_order_spec(
            AtRuleKind::Container,
            q,
            Some((lower, px)),
        ).1 == -px,
        lower ==> query_order_spec(AtRuleKind::Media, q, Some((lower, px))) == (0u8, px),
        !lower ==> query_order_spec(AtRuleKind::Media, q, Some((lower, px))).0 == 1 && query_order_spec(
            AtRuleKind::Media,
            q,
            Some((lower, px)),
        ).1 == -px,
{
}

/// `x` sorts before `y` (first by rank, then by value).
pub open spec fn order_less(x: (u8, i64), y: (u8, i64)) -> bool {
    x.0 < y.0 || (x.0 == y.0 && x.1 < y.1)
}

/// The cascade of media blocks: min-width bounds first, the smaller first;
/// then max-width bounds, the larger first; then bare media types such as
/// `print`; then other media features such as `(orientation:portrait)`; and
/// user preferences such as `(prefers-reduced-motion:reduce)` last. (The
/// width bound of a query is the one it was read with; the text does not
/// matter then.)
pub proof fn law_media_cascade(a: i64, b: i64, q1: Seq<char>, q2: Seq<char>, q3: Seq<char>, q4: Seq<char>)
    requires
        i64::MIN < a < b,
    ensures
        order_less(
            query_order_spec(AtRuleKind::Media, q1, Some((true, a))),
            query_order_spec(AtRuleKind::Media, q2, Some((true, b))),
        ),
        order_less(
            query_order_spec(AtRuleKind::Media, q2, Some((true, b))),
            query_order_spec(AtRuleKind::Media, q3, Some((false, b))),
        ),
        order_less(
            query_order_spec(AtRuleKind::Media, q3, Some((false, b))),
            query_order_spec(AtRuleKind::Media, q4, Some((false, a))),
        ),
        order_less(
            query_order_spec(AtRuleKind::Media, q4, Some((false, a))),
            query_order_spec(AtRuleKind::Media, "print"@, None),
        ),
        order_less(
            query_order_spec(AtRuleKind::Media, "print"@, None),
            query_order_spec(AtRuleKind::Media, "(orientation:portrait)"@, None),
        ),
        order_less(
            query_order_spec(AtRuleKind::Media, "(orientation:portrait)"@, None),
            query_order_spec(AtRuleKind::Media, "(prefers-reduced-motion:reduce)"@, None),
        ),
{
    reveal_strlit("print");
    reveal_strlit("(orientation:portrait)");
    reveal_strlit("(prefers-reduced-motion:reduce)");
    reveal_strlit("prefers-");
    reveal_strlit("forced-colors");
    let pr = "print"@;
    let ori = "(orientation:portrait)"@;
    let pre = "(prefers-reduced-motion:reduce)"@;
    let p1 = "prefers-"@;
    let p2 = "forced-colors"@;
    assert forall|i: int| !#[trigger] occurs_at(pr, p1, i) by {
        if occurs_at(pr, p1, i) {
            assert(pr.subrange(i, i + p1.len())[0] == p1[0]);
        }
    }
    assert forall|i: int| !#[trigger] occurs_at(pr, p2, i) by {
        if occurs_at(pr, p2, i) {
            assert(pr.subrange(i, i + p2.len())[0] == p2[0]);
        }
    }
    assert forall|i: int| !#[trigger] occurs_at(ori, p1, i) by {
        if occurs_at(ori, p1, i) {
            assert(ori.subrange(i, i + p1.len())[0] == p1[0]);
            assert(ori.subrange(i, i + p1.len())[1] == p1[1]);
        }
    }
    assert forall|i: int| !#[trigger] occurs_at(ori, p2, i) by {
        if occurs_at(ori, p2, i) {
            assert(ori.subrange(i, i + p2.len())[0] == p2[0]);
        }
    }
    assert(!contains_seq(pr, p1) && !contains_seq(pr, p2));
    assert(!contains_seq(ori, p1) && !contains_seq(ori, p2));
    assert(!pr.contains('(')) by {
        assert forall|i: int| 0 <= i < pr.len() implies pr[i] != '(' by {}
    }
    assert(ori[0] == '(');
    assert(ori.contains('('));
    assert(pre.subrange(1, 9) =~= p1);
    assert(occurs_at(pre, p1, 1));
}

/// Sort key giving at-rule blocks a deterministic cascade.
pub fn query_order(kind: AtRuleKind, query: &str, bound: Option<(bool, i64)>) -> (r: (u8, i64))
    requires
        bound matches Some((_, px)) ==> px > i64::MIN,
    ensures
        r == query_order_spec(kind, query@, bound),
{
    if kind == AtRuleKind::Media || kind == AtRuleKind::Container {
        match bound {
            Some((lower, px)) => {
                return if lower { (0, px) } else { (1, -px) };
            },
            None => {},
        }
    }
    let v = chars_of(query);
    if kind != AtRuleKind::Media {
        (3, 0)
    } else if contains_chars(&v, &chars_of("prefers-")) || contains_chars(&v, &chars_of("forced-colors")) {
        (4, 0)
    } else if crate::text::has_char(&v, '(') {
        (3, 0)
    } else {
        (2, 0)
    }
}

} // verus!
