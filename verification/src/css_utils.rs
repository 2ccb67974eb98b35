//! CSS text utilities: trailing semicolons, and the compaction of a CSS
//! block (comments dropped, whitespace around `{`, `}`, `;` and `:` removed,
//! multi-item values optimized, no `;` before a `}`).
use vstd::prelude::*;
use crate::optimize_multi_css_value::{
    check_multi_css_optimize, is_multi_css_property, optimize_multi_css_value, optimized_multi,
};
use crate::rm_css_comment::{rm_css_comment, strip_comments};
use crate::text::{chars_of, push_all, push_range, string_from, trim, trim_bounds};
use crate::utils::collapse_ws;

verus! {

/// `s` without its trailing semicolons.
pub open spec fn without_trailing_semis(s: Seq<char>) -> Seq<char>
    decreases s.len(),
{
    if s.len() > 0 && s.last() == ';' {
        without_trailing_semis(s.drop_last())
    } else {
        s
    }
}

/// The code without its trailing semicolons.
pub fn rm_last_semi_colon(code: &str) -> (r: String)
    ensures
        r@ == without_trailing_semis(code@),
{
    let v = chars_of(code);
    let mut n = v.len();
    assert(v@.take(n as int) == v@);
    while n > 0 && v[n - 1] == ';'
        invariant
            n <= v@.len(),
            without_trailing_semis(v@) == without_trailing_semis(v@.take(n as int)),
        decreases n,
    {
        assert(v@.take(n as int).drop_last() == v@.take(n - 1));
        n = n - 1;
    }
    assert(v@.take(n as int) == v@.subrange(0, n as int));
    string_from_range(&v, 0, n)
}

fn string_from_range(v: &Vec<char>, lo: usize, hi: usize) -> (r: String)
    requires
        lo <= hi <= v@.len(),
    ensures
        r@ == v@.subrange(lo as int, hi as int),
{
    crate::text::string_of(v, lo, hi)
}

/// The pieces of `s[start..]` between the given separators, each trimmed
/// and followed by its separator (the last piece by nothing).
pub open spec fn trim_pieces(s: Seq<char>, i: int, start: int, braces: bool) -> Seq<char>
    decreases s.len() - i,
{
    if i < 0 || i >= s.len() {
        trim(s.subrange(start, s.len() as int))
    } else if s[i] == '{' || (braces && s[i] == '}') {
        trim(s.subrange(start, i)) + seq![s[i]] + trim_pieces(s, i + 1, i + 1, braces)
    } else {
        trim_pieces(s, i + 1, start, braces)
    }
}

/// Whether `s` holds a `{` or a `}`.
pub open spec fn has_brace(s: Seq<char>) -> bool {
    exists|i: int| 0 <= i < s.len() && (s[i] == '{' || s[i] == '}')
}

/// `s` with the whitespace around every `{` and `}` removed (and at both
/// ends); unchanged when it has neither.
pub open spec fn brace_trimmed(s: Seq<char>) -> Seq<char> {
    if has_brace(s) {
        trim_pieces(s, 0, 0, true)
    } else {
        s
    }
}

/// Appends `trim_pieces(v[lo..hi])`: the trimmed pieces of `v[lo..hi]`
/// between `{` (and `}` when `braces`), each followed by its separator.
fn push_trim_pieces(out: &mut Vec<char>, v: &Vec<char>, lo: usize, hi: usize, braces: bool)
    requires
        lo <= hi <= v@.len(),
    ensures
        final(out)@ == old(out)@ + trim_pieces(v@.subrange(lo as int, hi as int), 0, 0, braces),
{
    let ghost s = v@.subrange(lo as int, hi as int);
    let mut start = lo;
    let mut i = lo;
    while i < hi
        invariant
            lo <= start <= i <= hi <= v@.len(),
            s == v@.subrange(lo as int, hi as int),
            old(out)@ + trim_pieces(s, 0, 0, braces) == out@ + trim_pieces(s, i - lo, start - lo, braces),
        decreases hi - i,
    {
        if v[i] == '{' || (braces && v[i] == '}') {
            let (a, b) = trim_bounds(v, start, i);
            let ghost before = out@;
            push_range(out, v, a, b);
            out.push(v[i]);
            proof {
                assert(s.subrange(start - lo, i - lo) == v@.subrange(start as int, i as int));
                assert(s[i - lo] == v@[i as int]);
                assert(before + trim_pieces(s, i - lo, start - lo, braces) =~= out@ + trim_pieces(s, i - lo + 1, i - lo + 1, braces));
            }
            start = i + 1;
        } else {
            assert(s[i - lo] == v@[i as int]);
        }
        i = i + 1;
    }
    let (a, b) = trim_bounds(v, start, hi);
    push_range(out, v, a, b);
    assert(s.subrange(start - lo, s.len() as int) == v@.subrange(start as int, hi as int));
}

/// The first index of `c` in `s` at or after `i` (`s.len()` when none).
pub open spec fn index_from(s: Seq<char>, c: char, i: int) -> int
    decreases s.len() - i,
{
    if i < 0 || i >= s.len() {
        s.len() as int
    } else if s[i] == c {
        i
    } else {
        index_from(s, c, i + 1)
    }
}

/// The index of the last `c` in `s` (-1 when none).
pub open spec fn last_index_of(s: Seq<char>, c: char) -> int
    decreases s.len(),
{
    if s.len() == 0 {
        -1
    } else if s.last() == c {
        s.len() - 1
    } else {
        last_index_of(s.drop_last(), c)
    }
}

/// A declaration `property:value` compacted: both sides trimmed, the value
/// of a multi-item property optimized; text without `:` is kept as it is.
pub open spec fn compact_decl(last: Seq<char>) -> Seq<char> {
    let k = index_from(last, ':', 0);
    if k < last.len() {
        let p = trim(last.take(k));
        let v = trim(last.skip(k + 1));
        p + seq![':'] + if is_multi_css_property(p) {
            optimized_multi(v)
        } else {
            v
        }
    } else {
        last
    }
}

/// One `;`-separated segment compacted: the selectors before its last `{`
/// (each `{`-piece trimmed) and then its declaration.
pub open spec fn compact_segment(s: Seq<char>) -> Seq<char> {
    let k = last_index_of(s, '{');
    if k >= 0 {
        trim_pieces(s.take(k), 0, 0, false) + seq!['{'] + compact_decl(trim(s.skip(k + 1)))
    } else {
        compact_decl(trim(s))
    }
}

/// The segments of `s[start..]` (separated by every `;`) compacted and
/// joined by `;`.
pub open spec fn compact_from(s: Seq<char>, i: int, start: int) -> Seq<char>
    decreases s.len() - i,
{
    if i < 0 || i >= s.len() {
        compact_segment(s.subrange(start, s.len() as int))
    } else if s[i] == ';' {
        compact_segment(s.subrange(start, i)) + seq![';'] + compact_from(s, i + 1, i + 1)
    } else {
        compact_from(s, i + 1, start)
    }
}

/// The first position at or after `i` that holds no `;` (`s.len()` when
/// none).
pub open spec fn skip_semis(s: Seq<char>, i: int) -> int
    decreases s.len() - i,
{
    if i < 0 || i >= s.len() {
        s.len() as int
    } else if s[i] == ';' {
        skip_semis(s, i + 1)
    } else {
        i
    }
}

/// `s` from `i` without the semicolons that (through a run of semicolons)
/// come right before a `}`.
pub open spec fn drop_semis_from(s: Seq<char>, i: int) -> Seq<char>
    decreases s.len() - i,
{
    if i < 0 || i >= s.len() {
        Seq::empty()
    } else if s[i] == ';' && skip_semis(s, i) < s.len() && s[skip_semis(s, i)] == '}' {
        drop_semis_from(s, i + 1)
    } else {
        seq![s[i]] + drop_semis_from(s, i + 1)
    }
}

/// The compacted form of a CSS block.
pub open spec fn compact_block(css: Seq<char>) -> Seq<char> {
    let joined = compact_from(brace_trimmed(collapse_ws(strip_comments(css))), 0, 0);
    let t = trim(joined);
    drop_semis_from(t, 0)
}

fn find_from(v: &Vec<char>, c: char, lo: usize, hi: usize) -> (r: usize)
    requires
        lo <= hi <= v@.len(),
    ensures
        r == lo + index_from(v@.subrange(lo as int, hi as int), c, 0),
        lo <= r <= hi,
{
    let ghost s = v@.subrange(lo as int, hi as int);
    let mut i = lo;
    while i < hi
        invariant
            lo <= i <= hi <= v@.len(),
            s == v@.subrange(lo as int, hi as int),
            index_from(s, c, 0) == index_from(s, c, i - lo),
        decreases hi - i,
    {
        if v[i] == c {
            assert(s[i - lo] == c);
            return i;
        }
        assert(s[i - lo] != c);
        i = i + 1;
    }
    i
}

proof fn lemma_index_from(s: Seq<char>, c: char, i: int)
    requires
        0 <= i <= s.len(),
    ensures
        i <= index_from(s, c, i) <= s.len(),
        index_from(s, c, i) < s.len() ==> s[index_from(s, c, i)] == c,
        forall|j: int| i <= j < index_from(s, c, i) ==> s[j] != c,
    decreases s.len() - i,
{
    if i < s.len() && s[i] != c {
        lemma_index_from(s, c, i + 1);
    }
}

fn last_from(v: &Vec<char>, c: char, lo: usize, hi: usize) -> (r: Option<usize>)
    requires
        lo <= hi <= v@.len(),
    ensures
        match r {
            Some(k) => lo <= k < hi && last_index_of(v@.subrange(lo as int, hi as int), c) == k - lo,
            None => last_index_of(v@.subrange(lo as int, hi as int), c) == -1,
        },
{
    let mut n = hi;
    while n > lo
        invariant
            lo <= n <= hi <= v@.len(),
            last_index_of(v@.subrange(lo as int, hi as int), c) == last_index_of(v@.subrange(lo as int, n as int), c),
        decreases n,
    {
        assert(v@.subrange(lo as int, n as int).drop_last() == v@.subrange(lo as int, n - 1));
        if v[n - 1] == c {
            return Some(n - 1);
        }
        n = n - 1;
    }
    None
}

/// Appends `compact_decl(v[lo..hi])`.
fn push_decl(out: &mut Vec<char>, v: &Vec<char>, lo: usize, hi: usize)
    requires
        lo <= hi <= v@.len(),
    ensures
        final(out)@ == old(out)@ + compact_decl(v@.subrange(lo as int, hi as int)),
{
    let ghost s = v@.subrange(lo as int, hi as int);
    let k = find_from(v, ':', lo, hi);
    if k < hi {
        proof {
            lemma_index_from(s, ':', 0);
            assert(s.take(k - lo) == v@.subrange(lo as int, k as int));
            assert(s.skip(k - lo + 1) == v@.subrange(k + 1, hi as int));
        }
        let (pa, pb) = trim_bounds(v, lo, k);
        let (va, vb) = trim_bounds(v, k + 1, hi);
        let property = string_from_range(v, pa, pb);
        push_range(out, v, pa, pb);
        out.push(':');
        if check_multi_css_optimize(property.as_str()) {
            let value = string_from_range(v, va, vb);
            let optimized = optimize_multi_css_value(value.as_str());
            let ov = chars_of(optimized.as_str());
            push_all(out, &ov);
        } else {
            push_range(out, v, va, vb);
        }
    } else {
        push_range(out, v, lo, hi);
    }
}

/// Appends `compact_segment(v[lo..hi])`.
fn push_segment(out: &mut Vec<char>, v: &Vec<char>, lo: usize, hi: usize)
    requires
        lo <= hi <= v@.len(),
    ensures
        final(out)@ == old(out)@ + compact_segment(v@.subrange(lo as int, hi as int)),
{
    let ghost s = v@.subrange(lo as int, hi as int);
    match last_from(v, '{', lo, hi) {
        Some(k) => {
            assert(s.take(k - lo) == v@.subrange(lo as int, k as int));
            assert(s.skip(k - lo + 1) == v@.subrange(k + 1, hi as int));
            push_trim_pieces(out, v, lo, k, false);
            out.push('{');
            let (a, b) = trim_bounds(v, k + 1, hi);
            let ghost before = out@;
            push_decl(out, v, a, b);
        },
        None => {
            let (a, b) = trim_bounds(v, lo, hi);
            push_decl(out, v, a, b);
        },
    }
}

/// Compact a CSS block: comments dropped, whitespace around `{`, `}`, `;`
/// and `:` removed, multi-item values optimized, no `;` left before a `}`.
pub fn optimize_css_block(css: &str) -> (r: String)
    ensures
        r@ == compact_block(css@),
{
    let cleaned = rm_css_comment(css);
    let cv = chars_of(cleaned.as_str());
    let mut any_brace = false;
    let mut i: usize = 0;
    while i < cv.len()
        invariant
            i <= cv@.len(),
            any_brace == exists|j: int| 0 <= j < i && (cv@[j] == '{' || cv@[j] == '}'),
        decreases cv@.len() - i,
    {
        if cv[i] == '{' || cv[i] == '}' {
            any_brace = true;
        }
        i = i + 1;
    }
    let t: Vec<char> = if any_brace {
        let mut buf: Vec<char> = Vec::new();
        push_trim_pieces(&mut buf, &cv, 0, cv.len(), true);
        assert(cv@.subrange(0, cv@.len() as int) == cv@);
        buf
    } else {
        cv
    };
    assert(t@ == brace_trimmed(collapse_ws(strip_comments(css@))));
    let mut joined: Vec<char> = Vec::new();
    let mut start: usize = 0;
    let mut j: usize = 0;
    while j < t.len()
        invariant
            start <= j <= t@.len(),
            compact_from(t@, 0, 0) == joined@ + compact_from(t@, j as int, start as int),
        decreases t@.len() - j,
    {
        if t[j] == ';' {
            let ghost before = joined@;
            push_segment(&mut joined, &t, start, j);
            joined.push(';');
            assert(before + compact_from(t@, j as int, start as int) =~= joined@ + compact_from(t@, j + 1, j + 1));
            start = j + 1;
        }
        j = j + 1;
    }
    push_segment(&mut joined, &t, start, t.len());
    assert(joined@ == compact_from(t@, 0, 0));
    let (a, b) = trim_bounds(&joined, 0, joined.len());
    assert(joined@.subrange(0, joined@.len() as int) == joined@);
    let mut out: Vec<char> = Vec::new();
    let mut k = a;
    let ghost tt = joined@.subrange(a as int, b as int);
    while k < b
        invariant
            a <= k <= b <= joined@.len(),
            tt == joined@.subrange(a as int, b as int),
            drop_semis_from(tt, 0) == out@ + drop_semis_from(tt, k - a),
        decreases b - k,
    {
        let c = joined[k];
        assert(tt[k - a] == c);
        let mut keep = true;
        if c == ';' {
            let mut m = k;
            while m < b && joined[m] == ';'
                invariant
                    a <= k <= m <= b <= joined@.len(),
                    tt == joined@.subrange(a as int, b as int),
                    tt[k - a] == ';',
                    skip_semis(tt, k - a) == skip_semis(tt, m - a),
                decreases b - m,
            {
                assert(tt[m - a] == joined@[m as int]);
                assert(tt[m - a] == ';');
                m = m + 1;
            }
            proof {
                if m < b {
                    assert(tt[m - a] == joined@[m as int]);
                }
            }
            if m < b && joined[m] == '}' {
                keep = false;
            }
        }
        if keep {
            out.push(c);
        }
        k = k + 1;
    }
    string_from(&out)
}

} // verus!
