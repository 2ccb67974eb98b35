//! CSS comments: every `/* ... */` is dropped (each comment ends at the first
//! `*/` after its `/*`) and the whitespace of what remains is collapsed.
use vstd::prelude::*;
use crate::text::{chars_of, string_from};
use crate::utils::{collapse_whitespace, collapse_ws};

verus! {

/// The position of the first `*/` at or after `j` (`s.len()` when none).
pub open spec fn comment_end(s: Seq<char>, j: int) -> int
    decreases s.len() - j,
{
    if j < 0 || j + 1 >= s.len() {
        s.len() as int
    } else if s[j] == '*' && s[j + 1] == '/' {
        j
    } else {
        comment_end(s, j + 1)
    }
}

/// `s` from position `i` with its comments removed: a `/*` that is closed
/// later by `*/` starts a comment; an unclosed one is kept as text.
pub open spec fn strip_comments_from(s: Seq<char>, i: int) -> Seq<char>
    decreases s.len() - i,
{
    if i < 0 || i >= s.len() {
        Seq::empty()
    } else if i + 1 < s.len() && s[i] == '/' && s[i + 1] == '*' && comment_end(s, i + 2) < s.len() {
        proof {
            lemma_comment_end(s, i + 2);
        }
        strip_comments_from(s, comment_end(s, i + 2) + 2)
    } else {
        seq![s[i]] + strip_comments_from(s, i + 1)
    }
}

/// `s` with its comments removed.
pub open spec fn strip_comments(s: Seq<char>) -> Seq<char> {
    strip_comments_from(s, 0)
}

pub proof fn lemma_comment_end(s: Seq<char>, j: int)
    requires
        0 <= j <= s.len(),
    ensures
        j <= comment_end(s, j) <= s.len(),
        comment_end(s, j) < s.len() ==> comment_end(s, j) + 1 < s.len() && s[comment_end(s, j)] == '*'
            && s[comment_end(s, j) + 1] == '/',
    decreases s.len() - j,
{
    if j + 1 < s.len() && !(s[j] == '*' && s[j + 1] == '/') {
        lemma_comment_end(s, j + 1);
    }
}

fn find_comment_end(v: &Vec<char>, j: usize) -> (r: usize)
    requires
        j <= v@.len(),
    ensures
        r == comment_end(v@, j as int),
{
    let mut k = j;
    while k < v.len() && v.len() - k > 1
        invariant
            j <= k <= v@.len(),
            comment_end(v@, j as int) == comment_end(v@, k as int),
        decreases v@.len() - k,
    {
        if v[k] == '*' && v[k + 1] == '/' {
            return k;
        }
        k = k + 1;
    }
    v.len()
}

/// The text with its comments removed and its whitespace collapsed.
pub fn rm_css_comment(value: &str) -> (r: String)
    ensures
        r@ == collapse_ws(strip_comments(value@)),
{
    let v = chars_of(value);
    let mut out: Vec<char> = Vec::new();
    let mut i: usize = 0;
    while i < v.len()
        invariant
            i <= v@.len(),
            v@ == value@,
            strip_comments(v@) == out@ + strip_comments_from(v@, i as int),
        decreases v@.len() - i,
    {
        if i + 1 < v.len() && v[i] == '/' && v[i + 1] == '*' {
            let end = find_comment_end(&v, i + 2);
            proof {
                lemma_comment_end(v@, i + 2);
            }
            if end < v.len() {
                i = end + 2;
                continue;
            }
        }
        let ghost before = out@;
        out.push(v[i]);
        assert(before + strip_comments_from(v@, i as int) == out@ + strip_comments_from(v@, i + 1));
        i = i + 1;
    }
    let s = string_from(&out);
    assert(out@ + Seq::<char>::empty() == out@);
    collapse_whitespace(s.as_str())
}

} // verus!
