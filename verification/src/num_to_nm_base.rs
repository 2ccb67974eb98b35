//! Short class names from class numbers.
//!
//! A number is written most-significant digit first: the leading digit comes
//! from the 27 symbols `a`-`z`, `_` (so a name never starts with a digit) and
//! every further digit from the 37 symbols `a`-`z`, `0`-`9`, `_`.
use vstd::prelude::*;
use crate::text::{char_from_ascii, push_char, string_from};

verus! {

/// Symbol `i` of the leading-digit alphabet `a`..`z`, `_`.
pub open spec fn n_char(i: int) -> char {
    if 0 <= i < 26 {
        (('a' as int) + i) as char
    } else {
        '_'
    }
}

/// Symbol `i` of the other-digit alphabet `a`..`z`, `0`..`9`, `_`.
pub open spec fn m_char(i: int) -> char {
    if 0 <= i < 26 {
        (('a' as int) + i) as char
    } else if 26 <= i < 36 {
        (('0' as int) + (i - 26)) as char
    } else {
        '_'
    }
}

/// The digits of `n`, most significant first, before the `ad` fix-up.
pub open spec fn nm_digits(n: nat) -> Seq<char>
    decreases n,
{
    if n < 27 {
        seq![n_char(n as int)]
    } else {
        let q = ((n - 27) / 37) as nat;
        let d = m_char((n - 27) % 37);
        if q == 0 {
            seq![n_char(0)].push(d)
        } else {
            nm_digits(q).push(d)
        }
    }
}

/// Whether the digits end in `a` followed by `d`.
pub open spec fn ends_in_ad(d: Seq<char>) -> bool {
    d.len() >= 2 && d[d.len() - 2] == 'a' && d.last() == 'd'
}

/// The class name of `n`: its digits, with a `-` put between a final `a`,`d`
/// pair so that no name ends in `ad`.
pub open spec fn nm_name(n: nat) -> Seq<char> {
    let d = nm_digits(n);
    if ends_in_ad(d) {
        d.drop_last().push('-').push('d')
    } else {
        d
    }
}

fn n_symbol(i: usize) -> (c: char)
    requires
        i < 27,
    ensures
        c == n_char(i as int),
{
    if i < 26 {
        char_from_ascii(97 + i as u32)
    } else {
        '_'
    }
}

fn m_symbol(i: usize) -> (c: char)
    requires
        i < 37,
    ensures
        c == m_char(i as int),
{
    if i < 26 {
        char_from_ascii(97 + i as u32)
    } else if i < 36 {
        char_from_ascii(48 + (i - 26) as u32)
    } else {
        '_'
    }
}

fn push_digits(n: usize, out: &mut Vec<char>)
    ensures
        final(out)@ == old(out)@ + nm_digits(n as nat),
    decreases n,
{
    if n < 27 {
        out.push(n_symbol(n));
    } else {
        let q = (n - 27) / 37;
        let d = m_symbol((n - 27) % 37);
        if q == 0 {
            out.push(n_symbol(0));
        } else {
            push_digits(q, out);
        }
        out.push(d);
    }
}

/// The class name of `num` (see [`nm_name`]).
pub fn num_to_nm_base(num: usize) -> (r: String)
    ensures
        r@ == nm_name(num as nat),
        !ends_in_ad(r@),
{
    let mut d: Vec<char> = Vec::new();
    push_digits(num, &mut d);
    assert(d@ == nm_digits(num as nat));
    let len = d.len();
    proof {
        lemma_digits_shape(num as nat);
    }
    if len >= 2 && d[len - 2] == 'a' && d[len - 1] == 'd' {
        let mut out = String::new();
        let mut i: usize = 0;
        while i < len - 1
            invariant
                len == d@.len(),
                len >= 2,
                i <= len - 1,
                out@ == d@.subrange(0, i as int),
            decreases len - 1 - i,
        {
            push_char(&mut out, d[i]);
            i = i + 1;
        }
        push_char(&mut out, '-');
        push_char(&mut out, 'd');
        assert(d@.subrange(0, len - 1) == d@.drop_last());
        out
    } else {
        string_from(&d)
    }
}

proof fn lemma_n_char(i: int)
    requires
        0 <= i < 27,
    ensures
        n_char(i) != '-',
        ('a' <= n_char(i) <= 'z') || n_char(i) == '_',
        n_char(i) == 'a' <==> i == 0,
        n_char(i) == 'd' <==> i == 3,
{
}

proof fn lemma_m_char(i: int)
    requires
        0 <= i < 37,
    ensures
        m_char(i) != '-',
        m_char(i) == 'a' <==> i == 0,
        m_char(i) == 'd' <==> i == 3,
{
}

proof fn lemma_n_char_inj(i: int, j: int)
    requires
        0 <= i < 27,
        0 <= j < 27,
        n_char(i) == n_char(j),
    ensures
        i == j,
{
}

proof fn lemma_m_char_inj(i: int, j: int)
    requires
        0 <= i < 37,
        0 <= j < 37,
        m_char(i) == m_char(j),
    ensures
        i == j,
{
}

/// Digits are never empty, hold no `-`, and a number of 27 or more has at
/// least two of them.
proof fn lemma_digits_shape(n: nat)
    ensures
        nm_digits(n).len() >= 1,
        n >= 27 ==> nm_digits(n).len() >= 2,
        n < 27 ==> nm_digits(n).len() == 1,
        !nm_digits(n).contains('-'),
    decreases n,
{
    if n < 27 {
        lemma_n_char(n as int);
        assert(nm_digits(n)[0] != '-');
    } else {
        let q = ((n - 27) / 37) as nat;
        let r = (n - 27) % 37;
        lemma_m_char(r);
        lemma_n_char(0);
        if q != 0 {
            lemma_digits_shape(q);
        }
        let d = nm_digits(n);
        assert forall|k: int| 0 <= k < d.len() implies d[k] != '-' by {
            if q != 0 {
                if k < d.len() - 1 {
                    assert(d[k] == nm_digits(q)[k]);
                    assert(nm_digits(q).contains(nm_digits(q)[k]));
                }
            }
        }
    }
}

proof fn lemma_digits_inj(a: nat, b: nat)
    requires
        nm_digits(a) == nm_digits(b),
    ensures
        a == b,
    decreases a + b,
{
    lemma_digits_shape(a);
    lemma_digits_shape(b);
    if a < 27 && b < 27 {
        assert(nm_digits(a) == seq![n_char(a as int)]);
        assert(nm_digits(b) == seq![n_char(b as int)]);
        assert(nm_digits(a)[0] == nm_digits(b)[0]);
        assert(seq![n_char(a as int)][0] == n_char(a as int));
        assert(seq![n_char(b as int)][0] == n_char(b as int));
        lemma_n_char_inj(a as int, b as int);
    } else if a >= 27 && b >= 27 {
        let qa = ((a - 27) / 37) as nat;
        let qb = ((b - 27) / 37) as nat;
        let ra = (a - 27) % 37;
        let rb = (b - 27) % 37;
        let da = nm_digits(a);
        let db = nm_digits(b);
        assert(da.last() == m_char(ra));
        assert(db.last() == m_char(rb));
        lemma_m_char_inj(ra, rb);
        let pa = if qa == 0 { seq![n_char(0)] } else { nm_digits(qa) };
        let pb = if qb == 0 { seq![n_char(0)] } else { nm_digits(qb) };
        assert(da.drop_last() == pa);
        assert(db.drop_last() == pb);
        if qa == 0 && qb != 0 {
            lemma_digits_shape(qb);
            assert(nm_digits(qb).len() == 1);
            assert(qb < 27);
            assert(nm_digits(qb)[0] == n_char(0));
            lemma_n_char_inj(qb as int, 0);
        } else if qa != 0 && qb == 0 {
            lemma_digits_shape(qa);
            assert(qa < 27);
            assert(nm_digits(qa)[0] == n_char(0));
            lemma_n_char_inj(qa as int, 0);
        } else if qa != 0 && qb != 0 {
            lemma_digits_inj(qa, qb);
        }
    }
}

/// Distinct class numbers get distinct class names.
pub proof fn lemma_nm_name_injective(a: nat, b: nat)
    requires
        nm_name(a) == nm_name(b),
    ensures
        a == b,
{
    lemma_digits_shape(a);
    lemma_digits_shape(b);
    let da = nm_digits(a);
    let db = nm_digits(b);
    let fa = ends_in_ad(da);
    let fb = ends_in_ad(db);
    if fa && !fb {
        let na = nm_name(a);
        assert(na[na.len() - 2] == '-');
        assert(db.contains(na[na.len() - 2]));
    } else if !fa && fb {
        let nb = nm_name(b);
        assert(nb[nb.len() - 2] == '-');
        assert(da.contains(nb[nb.len() - 2]));
    } else if fa && fb {
        assert(da.drop_last() == nm_name(a).drop_last().drop_last());
        assert(db.drop_last() == nm_name(b).drop_last().drop_last());
        assert(da == da.drop_last().push('d'));
        assert(db == db.drop_last().push('d'));
        lemma_digits_inj(a, b);
    } else {
        lemma_digits_inj(a, b);
    }
}

} // verus!
