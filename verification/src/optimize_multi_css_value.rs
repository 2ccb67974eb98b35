//! Values that list several items (`font-family`, `src`, `content`,
//! `animation-name`): each comma-separated item is trimmed and unquoted, and
//! quoted again with `"` only when it needs quotes and is no CSS function.
use vstd::prelude::*;
use crate::text::{chars_of, push_range, str_eq, string_from, trim, trim_bounds};

verus! {

/// A character of a CSS function's name: an ASCII letter or `-`.
pub open spec fn is_fn_name_char(c: char) -> bool {
    ('a' <= c && c <= 'z') || ('A' <= c && c <= 'Z') || c == '-'
}

/// The length of the run of name characters that starts `s`.
pub open spec fn fn_name_len(s: Seq<char>) -> nat
    decreases s.len(),
{
    if s.len() > 0 && is_fn_name_char(s[0]) {
        1 + fn_name_len(s.drop_first())
    } else {
        0
    }
}

/// Whether `s` opens with a CSS function call, the pattern
/// `^[a-zA-Z-]+(\(.*\))`: a name, `(`, then a `)` with no line break between.
pub open spec fn is_css_function(s: Seq<char>) -> bool {
    let k = fn_name_len(s) as int;
    &&& k >= 1
    &&& k < s.len()
    &&& s[k] == '('
    &&& exists|j: int| k < j < s.len() && s[j] == ')' && forall|m: int| k < m < j ==> s[m] != '\n'
}

/// Characters that force an item to be quoted.
pub open spec fn needs_quote_char(c: char) -> bool {
    c == '(' || c == ')' || c == ' ' || c == '\t' || c == '\n' || c == '\r' || c == '\x0b' || c
        == '\x0c'
}

/// An item without the quotes around it (`'x'` or `"x"`).
pub open spec fn unquote(s: Seq<char>) -> Seq<char> {
    if s.len() >= 2 && ((s[0] == '\'' && s.last() == '\'') || (s[0] == '"' && s.last() == '"')) {
        s.subrange(1, s.len() - 1)
    } else {
        s
    }
}

/// An unquoted item as written back: in `"` quotes when it holds a character
/// that needs them and is no CSS function, else as it is.
pub open spec fn requote(u: Seq<char>) -> Seq<char> {
    if (exists|i: int| 0 <= i < u.len() && needs_quote_char(u[i])) && !is_css_function(u) {
        seq!['"'] + u + seq!['"']
    } else {
        u
    }
}

/// One item of the list, optimized.
pub open spec fn optimize_item(s: Seq<char>) -> Seq<char> {
    requote(unquote(trim(s)))
}

/// The optimized list from position `i`, the current item starting at
/// `start`: items are separated by every `,`.
pub open spec fn multi_from(s: Seq<char>, i: int, start: int) -> Seq<char>
    decreases s.len() - i,
{
    if i < 0 || i >= s.len() {
        optimize_item(s.subrange(start, s.len() as int))
    } else if s[i] == ',' {
        optimize_item(s.subrange(start, i)) + seq![','] + multi_from(s, i + 1, i + 1)
    } else {
        multi_from(s, i + 1, start)
    }
}

/// The optimized value of a multi-item property.
pub open spec fn optimized_multi(s: Seq<char>) -> Seq<char> {
    multi_from(s, 0, 0)
}

fn fn_name_char(c: char) -> (r: bool)
    ensures
        r == is_fn_name_char(c),
{
    ('a' <= c && c <= 'z') || ('A' <= c && c <= 'Z') || c == '-'
}

fn quote_char(c: char) -> (r: bool)
    ensures
        r == needs_quote_char(c),
{
    c == '(' || c == ')' || c == ' ' || c == '\t' || c == '\n' || c == '\r' || c == '\x0b' || c
        == '\x0c'
}

proof fn lemma_fn_name_len(s: Seq<char>, i: int)
    requires
        0 <= i <= s.len(),
        forall|j: int| 0 <= j < i ==> is_fn_name_char(#[trigger] s[j]),
    ensures
        fn_name_len(s) >= i,
        fn_name_len(s) == i + fn_name_len(s.skip(i)),
    decreases i,
{
    if i > 0 {
        lemma_fn_name_len(s.drop_first(), i - 1);
        assert(s.drop_first().skip(i - 1) == s.skip(i));
    } else {
        assert(s.skip(0) == s);
    }
}

/// Whether `v[lo..hi]` opens with a CSS function call.
fn css_function_at(v: &[char], lo: usize, hi: usize) -> (r: bool)
    requires
        lo <= hi <= v@.len(),
    ensures
        r == is_css_function(v@.subrange(lo as int, hi as int)),
{
    let ghost s = v@.subrange(lo as int, hi as int);
    let mut k = lo;
    while k < hi && fn_name_char(v[k])
        invariant
            lo <= k <= hi <= v@.len(),
            s == v@.subrange(lo as int, hi as int),
            forall|j: int| 0 <= j < k - lo ==> is_fn_name_char(#[trigger] s[j]),
        decreases hi - k,
    {
        k = k + 1;
    }
    proof {
        lemma_fn_name_len(s, k - lo);
        if k < hi {
            assert(s.skip(k - lo)[0] == s[k - lo]);
            assert(fn_name_len(s.skip(k - lo)) == 0);
        } else {
            assert(s.skip(k - lo).len() == 0);
        }
    }
    let ghost kk = (k - lo) as int;
    assert(fn_name_len(s) == kk);
    if k == lo || k >= hi || v[k] != '(' {
        return false;
    }
    let mut j = k + 1;
    while j < hi
        invariant
            lo < k < j <= hi <= v@.len(),
            s == v@.subrange(lo as int, hi as int),
            kk == k - lo,
            fn_name_len(s) == kk,
            kk >= 1,
            s[kk] == '(',
            forall|m: int| kk < m < j - lo ==> s[m] != ')' && s[m] != '\n',
        decreases hi - j,
    {
        if v[j] == ')' {
            assert(s[j - lo] == ')');
            assert(forall|m: int| kk < m < j - lo ==> s[m] != '\n');
            return true;
        }
        if v[j] == '\n' {
            proof {
                assert forall|jj: int| kk < jj < s.len() && s[jj] == ')' implies exists|m: int| kk < m < jj && s[m] == '\n' by {
                    assert(jj > j - lo);
                    assert(s[j - lo] == '\n');
                }
            }
            return false;
        }
        j = j + 1;
    }
    false
}

fn push_item(out: &mut Vec<char>, v: &[char], lo: usize, hi: usize)
    requires
        lo <= hi <= v@.len(),
    ensures
        final(out)@ == old(out)@ + optimize_item(v@.subrange(lo as int, hi as int)),
{
    let (a0, b0) = trim_bounds(v, lo, hi);
    let ghost t = v@.subrange(a0 as int, b0 as int);
    let (a, b) = if b0 - a0 >= 2 && ((v[a0] == '\'' && v[b0 - 1] == '\'') || (v[a0] == '"' && v[b0 - 1] == '"')) {
        assert(t[0] == v@[a0 as int] && t.last() == v@[b0 - 1]);
        assert(v@.subrange(a0 + 1, b0 - 1) == t.subrange(1, t.len() - 1));
        (a0 + 1, b0 - 1)
    } else {
        (a0, b0)
    };
    let ghost u = v@.subrange(a as int, b as int);
    assert(u == unquote(t));
    let mut needs = false;
    let mut i = a;
    while i < b
        invariant
            a <= i <= b <= v@.len(),
            u == v@.subrange(a as int, b as int),
            needs == exists|j: int| 0 <= j < i - a && needs_quote_char(u[j]),
        decreases b - i,
    {
        if quote_char(v[i]) {
            assert(u[i - a] == v@[i as int]);
            needs = true;
        } else {
            proof {
                assert forall|j: int| 0 <= j < i + 1 - a && needs_quote_char(u[j]) implies j < i - a by {
                    if j == i - a {
                        assert(u[j] == v@[i as int]);
                    }
                }
            }
        }
        i = i + 1;
    }
    if needs && !css_function_at(v, a, b) {
        out.push('"');
        push_range(out, v, a, b);
        out.push('"');
        assert(final(out)@ =~= old(out)@ + requote(u));
    } else {
        push_range(out, v, a, b);
    }
}

/// Optimize a comma-separated list value: each item trimmed, unquoted, and
/// quoted again with `"` only when needed; items joined by `,`.
pub fn optimize_multi_css_value(value: &str) -> (r: String)
    ensures
        r@ == optimized_multi(value@),
{
    let v = chars_of(value);
    let mut out: Vec<char> = Vec::new();
    let mut start: usize = 0;
    let mut i: usize = 0;
    while i < v.len()
        invariant
            start <= i <= v@.len(),
            v@ == value@,
            optimized_multi(v@) == out@ + multi_from(v@, i as int, start as int),
        decreases v@.len() - i,
    {
        if v[i] == ',' {
            let ghost before = out@;
            push_item(&mut out, &v, start, i);
            out.push(',');
            assert(out@ == before + optimize_item(v@.subrange(start as int, i as int)) + seq![',']);
            assert(before + (optimize_item(v@.subrange(start as int, i as int)) + seq![','] + multi_from(v@, i + 1, i + 1))
                =~= out@ + multi_from(v@, i + 1, i + 1));
            start = i + 1;
        }
        i = i + 1;
    }
    push_item(&mut out, &v, start, v.len());
    string_from(&out)
}

/// A value wrapped in `url(...)` unless it is already a CSS function call.
pub open spec fn wrapped_url(s: Seq<char>) -> Seq<char> {
    if is_css_function(s) {
        s
    } else {
        "url("@ + s + ")"@
    }
}

/// Wrap a value in `url(...)` unless it is already a CSS function call.
pub fn wrap_url(s: &str) -> (r: String)
    ensures
        r@ == wrapped_url(s@),
{
    let v = chars_of(s);
    if css_function_at(&v, 0, v.len()) {
        assert(v@.subrange(0, v@.len() as int) == v@);
        s.to_string()
    } else {
        assert(v@.subrange(0, v@.len() as int) == v@);
        let mut out = String::new();
        crate::text::push_str(&mut out, "url(");
        crate::text::push_str(&mut out, s);
        crate::text::push_str(&mut out, ")");
        out
    }
}

/// The properties whose values list several items.
pub open spec fn is_multi_css_property(p: Seq<char>) -> bool {
    p == "font-family"@ || p == "src"@ || p == "content"@ || p == "animation-name"@
}

/// Whether a property's value is a list to optimize item by item.
pub fn check_multi_css_optimize(property: &str) -> (r: bool)
    ensures
        r == is_multi_css_property(property@),
{
    str_eq(property, "font-family") || str_eq(property, "src") || str_eq(property, "content") || str_eq(
        property,
        "animation-name",
    )
}

} // verus!
