//! Case conversion between `camelCase` props and `kebab-case` CSS names, and
//! whitespace collapsing for selectors.
use vstd::prelude::*;
use crate::text::{
    ascii_upper, ascii_ws, chars_of, is_ascii_upper, is_ascii_ws, is_unicode_ws, lower, string_from,
    to_lower, to_upper, upper, ws,
};

verus! {

/// What one character of the input becomes in kebab case: an ASCII capital
/// is lowered and, unless it is the first character, preceded by `-`.
pub open spec fn kebab_step(c: char, first: bool) -> Seq<char> {
    if is_ascii_upper(c) {
        if first {
            seq![lower(c)]
        } else {
            seq!['-', lower(c)]
        }
    } else {
        seq![c]
    }
}

/// `camelCase` to `kebab-case`, character by character.
pub open spec fn kebab(s: Seq<char>) -> Seq<char>
    decreases s.len(),
{
    if s.len() == 0 {
        seq![]
    } else {
        kebab(s.drop_last()) + kebab_step(s.last(), s.len() == 1)
    }
}

/// What one character becomes in camel case: `-` is dropped, and a
/// character right after a `-` is raised to ASCII upper case.
pub open spec fn camel_step(c: char, after_dash: bool) -> Seq<char> {
    if c == '-' {
        seq![]
    } else if after_dash {
        seq![upper(c)]
    } else {
        seq![c]
    }
}

/// `kebab-case` to `camelCase`.
pub open spec fn camel(s: Seq<char>) -> Seq<char>
    decreases s.len(),
{
    if s.len() == 0 {
        seq![]
    } else {
        camel(s.drop_last()) + camel_step(s.last(), s.len() >= 2 && s[s.len() - 2] == '-')
    }
}

/// A name that kebab case turns back into itself through camel case: it has
/// no `-` and does not start with an ASCII capital.
pub open spec fn camel_name(s: Seq<char>) -> bool {
    &&& forall|i: int| 0 <= i < s.len() ==> s[i] != '-'
    &&& (s.len() == 0 || !is_ascii_upper(s[0]))
}

proof fn lemma_kebab_last(s: Seq<char>)
    requires
        s.len() > 0,
        forall|i: int| 0 <= i < s.len() ==> s[i] != '-',
    ensures
        kebab(s).len() > 0,
        kebab(s).last() != '-',
{
    let c = s.last();
    assert(c == s[s.len() - 1]);
    if is_ascii_upper(c) {
        assert(lower(c) != '-');
    }
}

/// Camel case undoes kebab case: for a name without `-` that does not start
/// with an ASCII capital, `to_camel_case(to_kebab_case(s)) == s` (for
/// example `maxHeight` becomes `max-height` and then `maxHeight` again).
pub proof fn law_camel_undoes_kebab(s: Seq<char>)
    requires
        camel_name(s),
    ensures
        camel(kebab(s)) == s,
    decreases s.len(),
{
    if s.len() > 0 {
        let p = s.drop_last();
        let c = s.last();
        assert(c == s[s.len() - 1]);
        assert forall|i: int| 0 <= i < p.len() implies p[i] != '-' by {
            assert(p[i] == s[i]);
        }
        if p.len() > 0 {
            assert(p[0] == s[0]);
        }
        law_camel_undoes_kebab(p);
        let k = kebab(p);
        assert(c != '-');
        if is_ascii_upper(c) {
            assert(s.len() >= 2);
            let x = k + seq!['-', lower(c)];
            assert(kebab(s) == x);
            assert(x.drop_last() == k + seq!['-']);
            assert((k + seq!['-']).drop_last() == k);
            assert(x[x.len() - 2] == '-');
            assert(x.last() == lower(c));
            assert(upper(lower(c)) == c);
            let y = k + seq!['-'];
            assert(y.last() == '-');
            assert(camel(y) == camel(k) + seq![]);
            assert(camel(x) == camel(y) + seq![c]);
            assert(camel(x) == camel(k) + seq![c]);
        } else {
            let x = k + seq![c];
            assert(kebab(s) == x);
            assert(x.drop_last() == k);
            assert(x.last() == c);
            if p.len() > 0 {
                lemma_kebab_last(p);
                assert(x[x.len() - 2] == k.last());
            }
            assert(camel(x) == camel(k) + seq![c]);
        }
        assert(p.push(c) == s);
    }
}

/// Whether whitespace collapsing changes anything: some ASCII whitespace
/// opens the text, follows other whitespace or a comma, or ends the text.
pub open spec fn needs_collapse(s: Seq<char>) -> bool {
    ||| exists|i: int|
        0 <= i < s.len() && is_ascii_ws(#[trigger] s[i]) && (i == 0 || is_ascii_ws(s[i - 1]) || s[i
            - 1] == ',')
    ||| (s.len() > 0 && is_ascii_ws(s.last()))
}

/// The words of `s` (split on `White_Space`) joined by single spaces, with no
/// space after a word that ends in a comma. The flag says whether whitespace
/// has been seen since the last word.
pub open spec fn collapse_fold(s: Seq<char>) -> (Seq<char>, bool)
    decreases s.len(),
{
    if s.len() == 0 {
        (seq![], false)
    } else {
        let (out, pending) = collapse_fold(s.drop_last());
        let c = s.last();
        if is_unicode_ws(c) {
            (out, true)
        } else if pending && out.len() > 0 && out.last() != ',' {
            (out.push(' ').push(c), false)
        } else {
            (out.push(c), false)
        }
    }
}

/// The collapsed form of a selector or declaration text.
pub open spec fn collapse_ws(s: Seq<char>) -> Seq<char> {
    if needs_collapse(s) {
        collapse_fold(s).0
    } else {
        s
    }
}

/// Kebab case of a character sequence.
pub fn kebab_chars(v: &[char]) -> (r: Vec<char>)
    ensures
        r@ == kebab(v@),
{
    let mut out: Vec<char> = Vec::new();
    let mut i: usize = 0;
    while i < v.len()
        invariant
            i <= v@.len(),
            out@ == kebab(v@.subrange(0, i as int)),
        decreases v@.len() - i,
    {
        let c = v[i];
        if ascii_upper(c) {
            if i != 0 {
                out.push('-');
            }
            out.push(to_lower(c));
        } else {
            out.push(c);
        }
        proof {
            let t = v@.subrange(0, i + 1);
            assert(t.drop_last() == v@.subrange(0, i as int));
        }
        i = i + 1;
    }
    assert(v@.subrange(0, v@.len() as int) == v@);
    out
}

/// `backgroundColor` to `background-color`.
pub fn to_kebab_case(value: &str) -> (r: String)
    ensures
        r@ == kebab(value@),
{
    let v = chars_of(value);
    let k = kebab_chars(&v);
    string_from(&k)
}

/// Camel case of a character sequence.
pub fn camel_chars(v: &[char]) -> (r: Vec<char>)
    ensures
        r@ == camel(v@),
{
    let mut out: Vec<char> = Vec::new();
    let mut i: usize = 0;
    while i < v.len()
        invariant
            i <= v@.len(),
            out@ == camel(v@.subrange(0, i as int)),
        decreases v@.len() - i,
    {
        let c = v[i];
        if c != '-' {
            if i >= 1 && v[i - 1] == '-' {
                out.push(to_upper(c));
            } else {
                out.push(c);
            }
        }
        proof {
            let t = v@.subrange(0, i + 1);
            assert(t.drop_last() == v@.subrange(0, i as int));
        }
        i = i + 1;
    }
    assert(v@.subrange(0, v@.len() as int) == v@);
    out
}

/// `background-color` to `backgroundColor`.
pub fn to_camel_case(value: &str) -> (r: String)
    ensures
        r@ == camel(value@),
{
    let v = chars_of(value);
    let c = camel_chars(&v);
    string_from(&c)
}

/// Whitespace collapsing on a character sequence.
pub fn collapse_chars(v: &[char]) -> (r: Vec<char>)
    ensures
        r@ == collapse_ws(v@),
{
    let mut needs = false;
    let mut i: usize = 0;
    while i < v.len()
        invariant
            i <= v@.len(),
            needs == exists|j: int|
                0 <= j < i && is_ascii_ws(#[trigger] v@[j]) && (j == 0 || is_ascii_ws(v@[j - 1])
                    || v@[j - 1] == ','),
        decreases v@.len() - i,
    {
        if ascii_ws(v[i]) && (i == 0 || ascii_ws(v[i - 1]) || v[i - 1] == ',') {
            needs = true;
        }
        i = i + 1;
    }
    if !needs && v.len() > 0 && ascii_ws(v[v.len() - 1]) {
        needs = true;
    }
    if !needs {
        proof {
            assert(!needs_collapse(v@));
        }
        let mut same: Vec<char> = Vec::new();
        crate::text::push_all(&mut same, v);
        return same;
    }
    let mut out: Vec<char> = Vec::new();
    let mut pending = false;
    let mut k: usize = 0;
    while k < v.len()
        invariant
            k <= v@.len(),
            (out@, pending) == collapse_fold(v@.subrange(0, k as int)),
        decreases v@.len() - k,
    {
        let c = v[k];
        proof {
            let t = v@.subrange(0, k + 1);
            assert(t.drop_last() == v@.subrange(0, k as int));
        }
        if ws(c) {
            pending = true;
        } else {
            if pending && out.len() > 0 && out[out.len() - 1] != ',' {
                out.push(' ');
            }
            out.push(c);
            pending = false;
        }
        k = k + 1;
    }
    assert(v@.subrange(0, v@.len() as int) == v@);
    out
}

/// Collapse runs of whitespace to one space, drop it at both ends and after
/// commas (`" a ,  b "` becomes `"a ,b"`).
pub fn collapse_whitespace(value: &str) -> (r: String)
    ensures
        r@ == collapse_ws(value@),
{
    let v = chars_of(value);
    let c = collapse_chars(&v);
    string_from(&c)
}

} // verus!
