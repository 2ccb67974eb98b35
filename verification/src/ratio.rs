//! Aspect ratios in lowest terms: `16/10` becomes `8/5`.
use vstd::prelude::*;
use crate::optimize_value::{all_digits, digits_value};
use crate::text::{chars_of, decimal, is_ascii_digit, push_decimal, string_from, trim, trim_bounds};

verus! {

/// `str::parse::<u32>`: an optional `+`, then one or more ASCII digits,
/// at most `u32::MAX`.
pub open spec fn parse_u32(s: Seq<char>) -> Option<nat> {
    let d = if s.len() > 0 && s[0] == '+' {
        s.drop_first()
    } else {
        s
    };
    if d.len() == 0 || !all_digits(d) || digits_value(d) > u32::MAX {
        None
    } else {
        Some(digits_value(d))
    }
}

/// The greatest common divisor, by Euclid's algorithm.
pub open spec fn gcd(a: nat, b: nat) -> nat
    decreases b,
{
    if b == 0 {
        a
    } else {
        gcd(b, a % b)
    }
}

/// `i` is the first `/` of `s`.
pub open spec fn first_slash(s: Seq<char>, i: int) -> bool {
    &&& 0 <= i < s.len()
    &&& s[i] == '/'
    &&& forall|k: int| 0 <= k < i ==> s[k] != '/'
}

/// The two numbers of `a/b` (split at the first `/`, each side trimmed and
/// parsed as a `u32`), when both parse.
pub open spec fn ratio_parts(v: Seq<char>) -> Option<(nat, nat)> {
    if exists|i: int| first_slash(v, i) {
        let i = choose|i: int| first_slash(v, i);
        match (parse_u32(trim(v.take(i))), parse_u32(trim(v.skip(i + 1)))) {
            (Some(a), Some(b)) => Some((a, b)),
            _ => None,
        }
    } else {
        None
    }
}

/// A ratio `a/b` divided by the GCD of its two numbers, written as
/// `{a}/{b}`; any other value (and `0/0`, which has no reduced form) as it is.
pub open spec fn reduced_ratio(v: Seq<char>) -> Seq<char> {
    match ratio_parts(v) {
        Some((a, b)) => if gcd(a, b) > 0 {
            decimal(a / gcd(a, b)) + seq!['/'] + decimal(b / gcd(a, b))
        } else {
            v
        },
        None => v,
    }
}

/// The greatest common divisor of two `u32`s.
pub fn gcd_u32(a: u32, b: u32) -> (r: u32)
    ensures
        r == gcd(a as nat, b as nat),
{
    let mut x = a;
    let mut y = b;
    while y != 0
        invariant
            gcd(x as nat, y as nat) == gcd(a as nat, b as nat),
        decreases y,
    {
        let t = x % y;
        x = y;
        y = t;
    }
    x
}

/// `str::parse::<u32>` on `v[lo..hi]`.
fn parse_u32_at(v: &Vec<char>, lo: usize, hi: usize) -> (r: Option<u32>)
    requires
        lo <= hi <= v@.len(),
    ensures
        match r {
            Some(x) => parse_u32(v@.subrange(lo as int, hi as int)) == Some(x as nat),
            None => parse_u32(v@.subrange(lo as int, hi as int)).is_none(),
        },
{
    let ghost s = v@.subrange(lo as int, hi as int);
    let start: usize = if lo < hi && v[lo] == '+' {
        lo + 1
    } else {
        lo
    };
    let ghost d = v@.subrange(start as int, hi as int);
    assert(d == (if s.len() > 0 && s[0] == '+' {
        s.drop_first()
    } else {
        s
    }));
    if start >= hi {
        return None;
    }
    let mut acc: u64 = 0;
    let mut i = start;
    while i < hi
        invariant
            lo <= start <= i <= hi <= v@.len(),
            start < hi,
            s == v@.subrange(lo as int, hi as int),
            d == v@.subrange(start as int, hi as int),
            d == (if s.len() > 0 && s[0] == '+' {
                s.drop_first()
            } else {
                s
            }),
            acc <= 0x1_0000_0000,
            forall|k: int| start <= k < i ==> is_ascii_digit(#[trigger] v@[k]),
            acc < 0x1_0000_0000 ==> acc == digits_value(v@.subrange(start as int, i as int)),
            acc == 0x1_0000_0000 ==> digits_value(v@.subrange(start as int, i as int)) > u32::MAX,
        decreases hi - i,
    {
        let c = v[i];
        if !('0' <= c && c <= '9') {
            assert(!is_ascii_digit(d[i - start]));
            return None;
        }
        let ghost pre = v@.subrange(start as int, i as int);
        assert(v@.subrange(start as int, i + 1).drop_last() == pre);
        let dv: u64 = ((c as u32) - 48) as u64;
        if acc < 0x1_0000_0000 {
            let next = acc * 10 + dv;
            if next < 0x1_0000_0000 {
                acc = next;
            } else {
                acc = 0x1_0000_0000;
            }
        }
        i = i + 1;
    }
    assert(v@.subrange(start as int, hi as int) == d);
    assert(all_digits(d));
    if acc == 0x1_0000_0000 {
        return None;
    }
    Some(acc as u32)
}

/// `value` in lowest terms when it is a ratio `a/b` of two `u32`s (each may
/// be surrounded by whitespace): both divided by their GCD and written as
/// `{a}/{b}`. Any other value (and `0/0`) is returned as it is.
pub fn reduce_ratio(value: &str) -> (r: String)
    ensures
        r@ == reduced_ratio(value@),
{
    let v = chars_of(value);
    let n = v.len();
    let mut i: usize = 0;
    while i < n && v[i] != '/'
        invariant
            i <= n == v@.len(),
            v@ == value@,
            forall|k: int| 0 <= k < i ==> v@[k] != '/',
        decreases n - i,
    {
        i = i + 1;
    }
    if i == n {
        assert(!exists|j: int| first_slash(v@, j));
        return value.to_string();
    }
    proof {
        assert(first_slash(v@, i as int));
        assert forall|j: int| first_slash(v@, j) implies j == i by {
            if j < i {
                assert(v@[j] != '/');
            } else if j > i {
                assert(v@[i as int] != '/');
            }
        }
        let c = choose|j: int| first_slash(v@, j);
        assert(c == i);
    }
    let (a0, a1) = trim_bounds(&v, 0, i);
    let (b0, b1) = trim_bounds(&v, i + 1, n);
    assert(v@.subrange(0, i as int) == v@.take(i as int));
    assert(v@.subrange(i + 1, n as int) == v@.skip(i + 1));
    let pa = parse_u32_at(&v, a0, a1);
    let pb = parse_u32_at(&v, b0, b1);
    match (pa, pb) {
        (Some(a), Some(b)) => {
            let g = gcd_u32(a, b);
            if g == 0 {
                return value.to_string();
            }
            let mut out: Vec<char> = Vec::new();
            push_decimal(&mut out, (a / g) as u64);
            out.push('/');
            push_decimal(&mut out, (b / g) as u64);
            string_from(&out)
        },
        _ => value.to_string(),
    }
}

} // verus!
