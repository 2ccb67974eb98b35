//! The `0%` step of value normalization: inside a CSS math function
//! (`calc(`, `min(`, `clamp(`, ...), a bare `0` at the function's own
//! parenthesis level becomes `0%`. The positions are found in the Unicode
//! lowercase of the value and applied to the value by UTF-8 byte offset.
use vstd::prelude::*;
use crate::text::{chars_of, is_ascii_digit, occurs_at, starts_with_at, string_from};

verus! {

/// What `str::to_lowercase` gives for `s` (Unicode lowercase mapping).
pub uninterp spec fn unicode_lower(s: Seq<char>) -> Seq<char>;

/// `str::to_lowercase`: the Unicode lowercase of `s`, named by
/// `unicode_lower`, a function of `s` alone.
#[verifier::external_body]
fn to_lowercase(s: &str) -> (r: String)
    ensures
        r@ == unicode_lower(s@),
{
    s.to_lowercase()
}

/// The math functions in which a bare `0` means `0%`.
pub open spec fn zero_tokens() -> Seq<Seq<char>> {
    seq![
        "abs("@, "acos("@, "asin("@, "atan("@, "atan2("@, "calc("@, "calc-size("@, "clamp("@, "cos("@,
        "exp("@, "hypot("@, "log("@, "max("@, "min("@, "mod("@, "pow("@, "rem("@, "round("@, "sign("@,
        "sin("@, "sqrt("@, "tan("@,
    ]
}

fn zero_token(i: usize) -> (r: &'static str)
    requires
        i < 22,
    ensures
        r@ == zero_tokens()[i as int],
{
    match i {
        0 => "abs(",
        1 => "acos(",
        2 => "asin(",
        3 => "atan(",
        4 => "atan2(",
        5 => "calc(",
        6 => "calc-size(",
        7 => "clamp(",
        8 => "cos(",
        9 => "exp(",
        10 => "hypot(",
        11 => "log(",
        12 => "max(",
        13 => "min(",
        14 => "mod(",
        15 => "pow(",
        16 => "rem(",
        17 => "round(",
        18 => "sign(",
        19 => "sin(",
        20 => "sqrt(",
        _ => "tan(",
    }
}

/// The number of UTF-8 bytes of `c`.
pub open spec fn utf8_width(c: char) -> nat {
    if (c as u32) < 0x80 {
        1
    } else if (c as u32) < 0x800 {
        2
    } else if (c as u32) < 0x10000 {
        3
    } else {
        4
    }
}

/// The UTF-8 byte offset of character `k` of `s`.
pub open spec fn offset(s: Seq<char>, k: int) -> nat
    decreases k,
{
    if k <= 0 {
        0
    } else {
        offset(s, k - 1) + utf8_width(s[k - 1])
    }
}

/// The first index before `n` at which `f` occurs in `l`, or -1.
pub open spec fn occ_before(l: Seq<char>, f: Seq<char>, n: int) -> int
    decreases n,
{
    if n <= 0 {
        -1
    } else {
        let j = occ_before(l, f, n - 1);
        if j >= 0 {
            j
        } else if occurs_at(l, f, n - 1) {
            n - 1
        } else {
            -1
        }
    }
}

/// Where `f` first occurs in `l`, or -1 (`str::find`; `f` is ASCII, so its
/// matches start at characters).
pub open spec fn first_occurrence(l: Seq<char>, f: Seq<char>) -> int {
    occ_before(l, f, l.len() as int)
}

/// The parenthesis depth of `l[from..c]`.
pub open spec fn depth(l: Seq<char>, from: int, c: int) -> int
    decreases c - from,
{
    if c <= from {
        0
    } else {
        depth(l, from, c - 1) + if l[c - 1] == '(' {
            1int
        } else if l[c - 1] == ')' {
            -1int
        } else {
            0int
        }
    }
}

/// `l[c]` is a `0` at the level where scanning from `from` started, not
/// next to another digit.
pub open spec fn top_zero(l: Seq<char>, from: int, c: int) -> bool {
    &&& from <= c < l.len()
    &&& l[c] == '0'
    &&& depth(l, from, c) == 0
    &&& (c == 0 || !is_ascii_digit(l[c - 1]))
    &&& (c + 1 >= l.len() || !is_ascii_digit(l[c + 1]))
}

/// `l[c]` is a bare `0` of the first call of math function `t` in `l`.
#[verifier::opaque]
pub open spec fn token_zero(l: Seq<char>, t: int, c: int) -> bool {
    let f = zero_tokens()[t];
    let s = first_occurrence(l, f);
    s >= 0 && top_zero(l, s + f.len(), c)
}

/// `l[c]` becomes `0%` for some math function.
#[verifier::opaque]
pub open spec fn zero_marked(l: Seq<char>, c: int) -> bool {
    exists|t: int| 0 <= t < 22 && #[trigger] token_zero(l, t, c)
}

/// Byte offset `b` of the lowercase `l` is the offset of a marked `0`.
pub open spec fn offset_marked(l: Seq<char>, b: nat) -> bool {
    exists|c: int| 0 <= c < l.len() && zero_marked(l, c) && #[trigger] offset(l, c) == b
}

/// Every marked offset of `l` is the offset of a one-byte character of `r`
/// (otherwise `String::replace_range` panics).
pub open spec fn replaceable(r: Seq<char>, l: Seq<char>) -> bool {
    forall|c: int|
        0 <= c < l.len() && #[trigger] zero_marked(l, c) ==> exists|d: int|
            0 <= d < r.len() && #[trigger] offset(r, d) == offset(l, c) && (r[d] as u32) < 0x80
}

/// `r` with the character at each marked offset replaced by `0%`.
pub open spec fn percent_out(r: Seq<char>, l: Seq<char>) -> Seq<char>
    decreases r.len(),
{
    if r.len() == 0 {
        Seq::empty()
    } else {
        percent_out(r.drop_last(), l) + if offset_marked(l, offset(r, r.len() - 1)) {
            seq!['0', '%']
        } else {
            seq![r.last()]
        }
    }
}

/// The `0%` step of `value`: `None` where it panics (a marked offset of the
/// lowercase is not a one-byte character of the value).
pub open spec fn zero_percent_spec(value: Seq<char>) -> Option<Seq<char>> {
    let l = unicode_lower(value);
    if replaceable(value, l) {
        Some(percent_out(value, l))
    } else {
        None
    }
}

proof fn lemma_offset_mono(s: Seq<char>, a: int, b: int)
    requires
        0 <= a < b,
    ensures
        offset(s, a) < offset(s, b),
    decreases b - a,
{
    if a + 1 < b {
        lemma_offset_mono(s, a, b - 1);
    }
}

proof fn lemma_offset_bound(s: Seq<char>, k: int)
    requires
        0 <= k,
    ensures
        offset(s, k) <= 4 * k,
    decreases k,
{
    if k > 0 {
        lemma_offset_bound(s, k - 1);
    }
}

proof fn lemma_offset_prefix(s: Seq<char>, t: Seq<char>, k: int)
    requires
        0 <= k <= s.len(),
        k <= t.len(),
        s.take(k) == t.take(k),
    ensures
        offset(s, k) == offset(t, k),
    decreases k,
{
    if k > 0 {
        assert(s.take(k - 1) =~= s.take(k).take(k - 1));
        assert(t.take(k - 1) =~= t.take(k).take(k - 1));
        assert(s[k - 1] == s.take(k)[k - 1]);
        assert(t[k - 1] == t.take(k)[k - 1]);
        lemma_offset_prefix(s, t, k - 1);
    }
}

proof fn lemma_occ_before(l: Seq<char>, f: Seq<char>, n: int)
    requires
        0 <= n,
    ensures
        -1 <= occ_before(l, f, n) < n,
        occ_before(l, f, n) >= 0 ==> occurs_at(l, f, occ_before(l, f, n)) && forall|i: int|
            0 <= i < occ_before(l, f, n) ==> !#[trigger] occurs_at(l, f, i),
        occ_before(l, f, n) < 0 ==> forall|i: int| 0 <= i < n ==> !#[trigger] occurs_at(l, f, i),
    decreases n,
{
    if n > 0 {
        lemma_occ_before(l, f, n - 1);
    }
}

fn char_width(c: char) -> (r: u128)
    ensures
        r == utf8_width(c),
{
    let u = c as u32;
    if u < 0x80 {
        1
    } else if u < 0x800 {
        2
    } else if u < 0x10000 {
        3
    } else {
        4
    }
}

/// Marks the bare zeros of the first call of math function `t` in `l`.
fn mark_token(l: &Vec<char>, marks: &mut Vec<bool>, t: usize)
    requires
        t < 22,
        old(marks)@.len() == l@.len(),
    ensures
        final(marks)@.len() == l@.len(),
        forall|c: int| 0 <= c < l@.len() ==> #[trigger] final(marks)@[c] == (old(marks)@[c] || token_zero(l@, t as int, c)),
{
    reveal(token_zero);
    let f = chars_of(zero_token(t));
    let ghost fs = zero_tokens()[t as int];
    assert(f@ == fs);
    let n = l.len();
    proof {
        lemma_occ_before(l@, fs, n as int);
    }
    let mut s: usize = 0;
    while s < n && !starts_with_at(l, s, &f)
        invariant
            s <= n == l@.len(),
            f@ == fs,
            forall|i: int| 0 <= i < s ==> !#[trigger] occurs_at(l@, fs, i),
        decreases n - s,
    {
        s = s + 1;
    }
    if s >= n {
        proof {
            let j = first_occurrence(l@, fs);
            if j >= 0 {
                assert(!occurs_at(l@, fs, j));
            }
        }
        assert forall|c: int| 0 <= c < l@.len() implies marks@[c] == (marks@[c] || token_zero(l@, t as int, c)) by {}
        return;
    }
    proof {
        assert(occurs_at(l@, fs, s as int));
        let j = first_occurrence(l@, fs);
        if j < 0 {
            assert(!occurs_at(l@, fs, s as int));
        } else if j < s {
            assert(!occurs_at(l@, fs, j));
        } else if j > s {
            assert(!occurs_at(l@, fs, s as int));
        }
        assert(j == s);
    }
    let from = s + f.len();
    let ghost m0 = marks@;
    let mut c = from;
    let mut dep: i128 = 0;
    while c < n
        invariant
            from <= c <= n == l@.len(),
            from == first_occurrence(l@, fs) + fs.len(),
            first_occurrence(l@, fs) >= 0,
            fs == zero_tokens()[t as int],
            t < 22,
            marks@.len() == n,
            m0.len() == n,
            dep == depth(l@, from as int, c as int),
            -(c as int) <= dep <= c as int,
            forall|q: int| 0 <= q < n ==> #[trigger] marks@[q] == (m0[q] || (q < c && token_zero(l@, t as int, q))),
        decreases n - c,
    {
        let ch = l[c];
        let prev_digit = c > 0 && '0' <= l[c - 1] && l[c - 1] <= '9';
        let next_digit = c + 1 < n && '0' <= l[c + 1] && l[c + 1] <= '9';
        let hit = ch == '0' && dep == 0 && !prev_digit && !next_digit;
        assert(hit == top_zero(l@, from as int, c as int));
        let ghost mb = marks@;
        proof {
            reveal(token_zero);
            assert(token_zero(l@, t as int, c as int) == hit);
        }
        if hit {
            marks.set(c, true);
        }
        assert forall|q: int| 0 <= q < n implies #[trigger] marks@[q] == (m0[q] || (q < c + 1 && token_zero(
            l@,
            t as int,
            q,
        ))) by {
            if q != c {
                assert(marks@[q] == mb[q]);
            }
        }
        if ch == '(' {
            dep = dep + 1;
        } else if ch == ')' {
            dep = dep - 1;
        }
        c = c + 1;
    }
    assert forall|q: int| 0 <= q < l@.len() implies #[trigger] marks@[q] == (m0[q] || token_zero(l@, t as int, q)) by {
        if q < from && token_zero(l@, t as int, q) {
            assert(false);
        }
    }
}

/// The byte offsets of the marked zeros of `l`, in increasing order, with
/// the character index each comes from and, for each marked zero, its place
/// in the list.
fn marked_offsets(l: &Vec<char>) -> (r: (Vec<u128>, Ghost<Seq<int>>, Ghost<Map<int, int>>))
    ensures
        r.1@.len() == r.0@.len(),
        forall|j: int, k: int| 0 <= j < k < r.0@.len() ==> r.0@[j] < r.0@[k],
        forall|j: int|
            0 <= j < r.0@.len() ==> 0 <= #[trigger] r.1@[j] < l@.len() && zero_marked(l@, r.1@[j]) && r.0@[j] == offset(
                l@,
                r.1@[j],
            ),
        forall|q: int|
            0 <= q < l@.len() && #[trigger] zero_marked(l@, q) ==> r.2@.contains_key(q) && 0 <= r.2@[q] < r.0@.len()
                && r.0@[r.2@[q]] == offset(l@, q),
{
    let ghost lv = l@;
    let n = l.len();
    let mut marks: Vec<bool> = Vec::new();
    let mut i: usize = 0;
    while i < n
        invariant
            i <= n == l@.len(),
            marks@.len() == i,
            forall|q: int| 0 <= q < i ==> !#[trigger] marks@[q],
        decreases n - i,
    {
        marks.push(false);
        i = i + 1;
    }
    let mut t: usize = 0;
    while t < 22
        invariant
            t <= 22,
            l@ == lv,
            n == lv.len(),
            marks@.len() == n,
            forall|q: int| 0 <= q < n ==> #[trigger] marks@[q] == exists|u: int| 0 <= u < t && #[trigger] token_zero(lv, u, q),
        decreases 22 - t,
    {
        let ghost mb = marks@;
        mark_token(l, &mut marks, t);
        assert forall|q: int| 0 <= q < n implies #[trigger] marks@[q] == exists|u: int|
            0 <= u < t + 1 && #[trigger] token_zero(lv, u, q) by {
            if marks@[q] && !mb[q] {
                assert(token_zero(lv, t as int, q));
            }
            if exists|u: int| 0 <= u < t + 1 && #[trigger] token_zero(lv, u, q) {
                let u = choose|u: int| 0 <= u < t + 1 && #[trigger] token_zero(lv, u, q);
                if u < t {
                    assert(mb[q]);
                }
            }
        }
        t = t + 1;
    }
    assert forall|q: int| 0 <= q < n implies #[trigger] marks@[q] == zero_marked(lv, q) by {
        reveal(zero_marked);
    }
    let mut mo: Vec<u128> = Vec::new();
    let ghost mut src: Seq<int> = Seq::empty();
    let ghost mut rank: Map<int, int> = Map::empty();
    let mut b: u128 = 0;
    let mut c: usize = 0;
    while c < n
        invariant
            c <= n == lv.len(),
            l@ == lv,
            marks@.len() == n,
            forall|q: int| 0 <= q < n ==> #[trigger] marks@[q] == zero_marked(lv, q),
            b == offset(lv, c as int),
            src.len() == mo@.len(),
            forall|j: int, k: int| 0 <= j < k < mo@.len() ==> mo@[j] < mo@[k],
            forall|j: int|
                0 <= j < mo@.len() ==> 0 <= #[trigger] src[j] < c && zero_marked(lv, src[j]) && mo@[j] == offset(lv, src[j]),
            forall|j: int| 0 <= j < mo@.len() ==> #[trigger] mo@[j] < b,
            forall|q: int|
                0 <= q < c && #[trigger] zero_marked(lv, q) ==> rank.contains_key(q) && 0 <= rank[q] < mo@.len() && mo@[rank[q]]
                    == offset(lv, q),
        decreases n - c,
    {
        proof {
            lemma_offset_bound(lv, c + 1);
            lemma_offset_mono(lv, c as int, c + 1);
        }
        if marks[c] {
            proof {
                rank = rank.insert(c as int, mo@.len() as int);
                src = src.push(c as int);
            }
            mo.push(b);
        }
        b = b + char_width(l[c]);
        c = c + 1;
    }
    (mo, Ghost(src), Ghost(rank))
}

/// The `0%` step (see [`zero_percent_spec`]): `None` where the step panics.
pub fn zero_percent(value: &str) -> (r: Option<String>)
    ensures
        match r {
            Some(s) => zero_percent_spec(value@) == Some(s@),
            None => zero_percent_spec(value@).is_none(),
        },
{
    let lower = to_lowercase(value);
    let l = chars_of(lower.as_str());
    let ghost lv = l@;
    let (mo, Ghost(src), Ghost(rank)) = marked_offsets(&l);
    let r = chars_of(value);
    let ghost rv = r@;
    let m = r.len();
    let mut out: Vec<char> = Vec::new();
    let mut k: usize = 0;
    let mut br: u128 = 0;
    let mut d: usize = 0;
    let ghost mut hitpos: Seq<int> = Seq::empty();
    assert(rv.take(0) =~= Seq::<char>::empty());
    while d < m
        invariant
            d <= m == rv.len(),
            r@ == rv,
            k <= mo@.len(),
            br == offset(rv, d as int),
            lv == unicode_lower(value@),
            rv == value@,
            src.len() == mo@.len(),
            forall|j: int, jj: int| 0 <= j < jj < mo@.len() ==> mo@[j] < mo@[jj],
            forall|j: int|
                0 <= j < mo@.len() ==> 0 <= #[trigger] src[j] < lv.len() && zero_marked(lv, src[j]) && mo@[j] == offset(lv, src[j]),
            forall|q: int|
                0 <= q < lv.len() && #[trigger] zero_marked(lv, q) ==> rank.contains_key(q) && 0 <= rank[q] < mo@.len() && mo@[rank[q]]
                    == offset(lv, q),
            hitpos.len() == k,
            forall|j: int|
                0 <= j < k ==> 0 <= #[trigger] hitpos[j] < d && offset(rv, hitpos[j]) == mo@[j] && (rv[hitpos[j]] as u32) < 0x80,
            forall|j: int| 0 <= j < k ==> #[trigger] mo@[j] < br,
            k < mo@.len() ==> forall|e: int| 0 <= e < d ==> #[trigger] offset(rv, e) < mo@[k as int],
            out@ == percent_out(rv.take(d as int), lv),
        decreases m - d,
    {
        proof {
            lemma_offset_bound(rv, d + 1);
        }
        if k < mo.len() && mo[k] < br {
            proof {
                let q = src[k as int];
                assert forall|e: int| 0 <= e < rv.len() && #[trigger] offset(rv, e) == offset(lv, q) implies (rv[e] as u32)
                    >= 0x80 by {
                    if e > d {
                        lemma_offset_mono(rv, d as int, e);
                    }
                }
                assert(!replaceable(rv, lv));
            }
            return None;
        }
        let ch = r[d];
        let ghost before = out@;
        let hit = k < mo.len() && mo[k] == br;
        if hit && (ch as u32) >= 0x80 {
            proof {
                let q = src[k as int];
                assert forall|e: int| 0 <= e < rv.len() && #[trigger] offset(rv, e) == offset(lv, q) implies (rv[e] as u32)
                    >= 0x80 by {
                    if e > d {
                        lemma_offset_mono(rv, d as int, e);
                    }
                }
                assert(!replaceable(rv, lv));
            }
            return None;
        }
        if hit {
            out.push('0');
            out.push('%');
        } else {
            out.push(ch);
        }
        proof {
            let t1 = rv.take(d + 1);
            assert(t1.drop_last() =~= rv.take(d as int));
            assert(t1.last() == ch);
            lemma_offset_prefix(t1, rv, d as int);
            assert(offset(t1, t1.len() - 1) == br);
            if hit {
                let q = src[k as int];
                assert(offset(lv, q) == br);
                assert(offset_marked(lv, br as nat));
                assert(out@ =~= before + seq!['0', '%']);
            } else {
                if offset_marked(lv, br as nat) {
                    let q = choose|q: int| 0 <= q < lv.len() && zero_marked(lv, q) && #[trigger] offset(lv, q) == br;
                    let j = rank[q];
                    if j < k {
                        assert(mo@[j] < br);
                    } else if j > k {
                        assert(mo@[k as int] < mo@[j]);
                    }
                }
                assert(out@ =~= before + seq![ch]);
            }
            lemma_offset_mono(rv, d as int, d + 1);
        }
        if hit {
            proof {
                hitpos = hitpos.push(d as int);
            }
            k = k + 1;
        }
        br = br + char_width(ch);
        d = d + 1;
    }
    assert(rv.take(d as int) =~= rv);
    if k < mo.len() {
        proof {
            let q = src[k as int];
            assert forall|e: int| 0 <= e < rv.len() && #[trigger] offset(rv, e) == offset(lv, q) implies (rv[e] as u32)
                >= 0x80 by {}
            assert(!replaceable(rv, lv));
        }
        return None;
    }
    proof {
        assert forall|q: int| 0 <= q < lv.len() && #[trigger] zero_marked(lv, q) implies exists|e: int|
            0 <= e < rv.len() && #[trigger] offset(rv, e) == offset(lv, q) && (rv[e] as u32) < 0x80 by {
            let j = rank[q];
            let e = hitpos[j];
            assert(offset(rv, e) == offset(lv, q));
        }
    }
    Some(string_from(&out))
}

} // verus!
