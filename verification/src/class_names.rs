//! Class-name strings: collecting class segments into one space-separated
//! list, and replacing utility class names by the generated ones.
use vstd::prelude::*;
use crate::text::{chars_of, occurs_at, push_all, push_str, starts_with_at, str_eq, string_from};

verus! {

/// The class list with `value` appended (space-separated); an empty value
/// adds nothing.
pub open spec fn with_segment(classes: Seq<char>, value: Seq<char>) -> Seq<char> {
    if value.len() == 0 {
        classes
    } else if classes.len() == 0 {
        value
    } else {
        classes + seq![' '] + value
    }
}

/// Append a class segment to a space-separated class list.
pub fn push_class_segment(classes: &mut String, value: &str)
    ensures
        final(classes)@ == with_segment(old(classes)@, value@),
{
    proof {
        reveal_strlit("");
        if value@.len() == 0 {
            assert(value@ =~= ""@);
        }
    }
    if str_eq(value, "") {
        return;
    }
    let empty = str_eq(classes.as_str(), "");
    proof {
        if old(classes)@.len() == 0 {
            assert(old(classes)@ =~= ""@);
        }
    }
    if !empty {
        crate::text::push_char(classes, ' ');
    }
    push_str(classes, value);
    proof {
        if old(classes)@.len() == 0 {
            assert(old(classes)@ + value@ =~= value@);
        } else {
            assert(old(classes)@.push(' ') + value@ =~= old(classes)@ + seq![' '] + value@);
        }
    }
}

/// `s[i..]` with every occurrence of the non-empty `p` (left to right, not
/// overlapping) replaced by `r`.
pub open spec fn replaced_from(s: Seq<char>, p: Seq<char>, r: Seq<char>, i: int) -> Seq<char>
    decreases s.len() - i,
{
    if i < 0 || i >= s.len() || p.len() == 0 {
        if 0 <= i <= s.len() {
            s.subrange(i, s.len() as int)
        } else {
            Seq::empty()
        }
    } else if occurs_at(s, p, i) {
        r + replaced_from(s, p, r, i + p.len())
    } else {
        seq![s[i]] + replaced_from(s, p, r, i + 1)
    }
}

/// `s` with `r` put before every character and at the end (what replacing
/// the empty pattern does).
pub open spec fn interleaved(s: Seq<char>, r: Seq<char>) -> Seq<char>
    decreases s.len(),
{
    if s.len() == 0 {
        r
    } else {
        interleaved(s.drop_last(), r) + seq![s.last()] + r
    }
}

/// `str::replace`.
pub open spec fn replaced(s: Seq<char>, p: Seq<char>, r: Seq<char>) -> Seq<char> {
    if p.len() == 0 {
        interleaved(s, r)
    } else {
        replaced_from(s, p, r, 0)
    }
}

fn replace_chars(s: &Vec<char>, p: &Vec<char>, r: &Vec<char>) -> (out: Vec<char>)
    ensures
        out@ == replaced(s@, p@, r@),
{
    let mut out: Vec<char> = Vec::new();
    if p.len() == 0 {
        let mut i: usize = 0;
        push_all(&mut out, r);
        assert(s@.take(0) =~= Seq::<char>::empty());
        while i < s.len()
            invariant
                i <= s@.len(),
                p@.len() == 0,
                out@ == interleaved(s@.take(i as int), r@),
            decreases s@.len() - i,
        {
            assert(s@.take(i + 1).drop_last() == s@.take(i as int));
            out.push(s[i]);
            push_all(&mut out, r);
            i = i + 1;
        }
        assert(s@.take(i as int) == s@);
        return out;
    }
    let mut i: usize = 0;
    while i < s.len()
        invariant
            i <= s@.len(),
            p@.len() > 0,
            replaced(s@, p@, r@) == out@ + replaced_from(s@, p@, r@, i as int),
        decreases s@.len() - i,
    {
        let ghost before = out@;
        if starts_with_at(s, i, p) {
            push_all(&mut out, r);
            assert(before + replaced_from(s@, p@, r@, i as int) =~= out@ + replaced_from(
                s@,
                p@,
                r@,
                i + p@.len(),
            ));
            i = i + p.len();
        } else {
            out.push(s[i]);
            assert(before + replaced_from(s@, p@, r@, i as int) =~= out@ + replaced_from(s@, p@, r@, i + 1));
            i = i + 1;
        }
    }
    assert(replaced_from(s@, p@, r@, i as int) =~= Seq::<char>::empty());
    assert(out@ + Seq::<char>::empty() =~= out@);
    out
}

/// `s` after each pair `(class, generated)` of `sorted[..k]`, in order,
/// replaced its class by the generated one.
pub open spec fn classes_replaced(s: Seq<char>, sorted: Seq<(&String, &String)>, k: int) -> Seq<char>
    decreases k,
{
    if k <= 0 {
        s
    } else {
        let prev = classes_replaced(s, sorted, k - 1);
        let pair = sorted[k - 1];
        if crate::text::contains_seq(prev, pair.0@) {
            replaced(prev, pair.0@, pair.1@)
        } else {
            prev
        }
    }
}

/// Replace utility class names in `s` by the generated ones, pair by pair
/// in the given order (longest names first, so that a name is replaced
/// before its prefixes).
pub fn replace_classes_in_string(s: &str, sorted_classes: &[(&String, &String)]) -> (r: String)
    ensures
        r@ == classes_replaced(s@, sorted_classes@, sorted_classes@.len() as int),
{
    let mut result = chars_of(s);
    let mut k: usize = 0;
    while k < sorted_classes.len()
        invariant
            k <= sorted_classes@.len(),
            result@ == classes_replaced(s@, sorted_classes@, k as int),
        decreases sorted_classes@.len() - k,
    {
        let (class, generated) = sorted_classes[k];
        let c = chars_of(class.as_str());
        if crate::text::contains_chars(&result, &c) {
            let g = chars_of(generated.as_str());
            result = replace_chars(&result, &c, &g);
        }
        k = k + 1;
    }
    string_from(&result)
}

} // verus!
