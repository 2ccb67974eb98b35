//! CSS values in their normalized, shortest form. A value is trimmed and a
//! custom property name wrapped in `var()`; then regular expressions drop
//! the spaces inside parentheses, a minus before a zero length, repeated
//! spaces between numbers and the spaces around commas; `rgb()` colors
//! become hex, hex colors their shortest uppercase form (`#ff0000` becomes
//! `#F00`, `#ff0000ff` becomes `#F00`, `#f00f` becomes `#F00`), leading and
//! trailing zeros of decimals and the units of zero lengths go; finally a
//! trailing `;` is removed and parentheses are balanced.
//!
//! The `rgba()` step (its alpha is scaled as a float) runs between
//! [`value_spacing`] and [`value_colors`]; the `0%` step of math functions
//! (the `zero_percent` module) runs between [`value_colors`] and
//! [`value_finished`].
use vstd::prelude::*;
use crate::regex_match::{
    captures_all, filled, group_text, groups_view, matches_view, parts_view, regex_captures, regex_compiles,
    regex_new, replace_with_template, replaced_pieces, replaced_text, MatchView, PartView, Pattern, TemplatePart,
};
use crate::text::{chars_of, contains_seq, is_ascii_digit, is_ascii_ws, push_str, string_from, trim};

verus! {

/// ASCII uppercase of a character (other characters unchanged).
pub open spec fn up(c: char) -> char {
    if 'a' <= c && c <= 'z' {
        ((c as u32) - 32) as char
    } else {
        c
    }
}

/// Equal ignoring ASCII case.
pub open spec fn eq_ci(a: char, b: char) -> bool {
    up(a) == up(b)
}

/// Every character uppercased.
pub open spec fn upper(s: Seq<char>) -> Seq<char> {
    s.map_values(|c: char| up(c))
}

/// The digits of a hex color after `#`, shortened: each doubled digit pair of
/// a six- or eight-digit color becomes one digit, an opaque alpha (`FF`, or
/// `F` on a four-digit color) is dropped, and everything is uppercased.
pub open spec fn short_color(v: Seq<char>) -> Seq<char> {
    if v.len() == 6 && eq_ci(v[0], v[1]) && eq_ci(v[2], v[3]) && eq_ci(v[4], v[5]) {
        seq![up(v[0]), up(v[2]), up(v[4])]
    } else if v.len() == 8 {
        let opaque = up(v[6]) == 'F' && up(v[7]) == 'F';
        if eq_ci(v[0], v[1]) && eq_ci(v[2], v[3]) && eq_ci(v[4], v[5]) && eq_ci(v[6], v[7]) {
            seq![up(v[0]), up(v[2]), up(v[4])] + if opaque {
                Seq::empty()
            } else {
                seq![up(v[6])]
            }
        } else if opaque {
            upper(v.take(6))
        } else {
            upper(v)
        }
    } else if v.len() == 4 && up(v[3]) == 'F' {
        upper(v.take(3))
    } else {
        upper(v)
    }
}

/// Each digit written twice: the long form of a short hex color.
pub open spec fn doubled(s: Seq<char>) -> Seq<char> {
    Seq::new(2 * s.len(), |i: int| s[i / 2])
}

/// The eight-digit form of a hex color of three, four, six or eight digits:
/// a short color's digits doubled, an opaque alpha `FF` added where it is
/// left out.
pub open spec fn full_color(s: Seq<char>) -> Seq<char> {
    if s.len() == 3 {
        doubled(s) + seq!['F', 'F']
    } else if s.len() == 4 {
        doubled(s)
    } else if s.len() == 6 {
        s + seq!['F', 'F']
    } else {
        s
    }
}

/// A shortened hex color is the same color: written out in full, the short
/// form is the color it was made from (up to case). In particular a six-digit
/// color becomes three digits only when every pair is a doubled digit, and
/// then it does.
pub proof fn law_short_color_same_color(v: Seq<char>)
    requires
        v.len() == 3 || v.len() == 4 || v.len() == 6 || v.len() == 8,
    ensures
        full_color(short_color(v)) == full_color(upper(v)),
        v.len() == 6 ==> (short_color(v).len() == 3 <==> (eq_ci(v[0], v[1]) && eq_ci(v[2], v[3]) && eq_ci(
            v[4],
            v[5],
        ))),
        short_color(v).len() <= v.len(),
{
    let u = upper(v);
    let sc = short_color(v);
    let three_pairs = v.len() >= 6 && eq_ci(v[0], v[1]) && eq_ci(v[2], v[3]) && eq_ci(v[4], v[5]);
    if v.len() == 6 && three_pairs {
        assert(doubled(sc) =~= u);
        assert(full_color(sc) =~= full_color(u));
    } else if v.len() == 8 {
        let opaque = up(v[6]) == 'F' && up(v[7]) == 'F';
        if eq_ci(v[0], v[1]) && eq_ci(v[2], v[3]) && eq_ci(v[4], v[5]) && eq_ci(v[6], v[7]) {
            if opaque {
                assert(doubled(sc) + seq!['F', 'F'] =~= u);
            } else {
                assert(doubled(sc) =~= u);
            }
        } else if opaque {
            assert(upper(v.take(6)) + seq!['F', 'F'] =~= u);
        }
    } else if v.len() == 4 && up(v[3]) == 'F' {
        assert(doubled(upper(v.take(3))) + seq!['F', 'F'] =~= doubled(u));
    }
}

fn up_exec(c: char) -> (r: char)
    ensures
        r == up(c),
{
    if 'a' <= c && c <= 'z' {
        let u: u32 = (c as u32) - 32;
        proof {
            assert(u == (c as u32) - 32);
        }
        crate::text::char_from_ascii(u)
    } else {
        c
    }
}

fn push_upper(out: &mut String, v: &Vec<char>, n: usize)
    requires
        n <= v@.len(),
    ensures
        final(out)@ == old(out)@ + upper(v@.take(n as int)),
{
    let mut i: usize = 0;
    while i < n
        invariant
            i <= n <= v@.len(),
            out@ == old(out)@ + upper(v@.take(i as int)),
        decreases n - i,
    {
        let ghost before = out@;
        crate::text::push_char(out, up_exec(v[i]));
        assert(upper(v@.take(i + 1)) =~= upper(v@.take(i as int)).push(up(v@[i as int])));
        i = i + 1;
    }
}

/// A hex color capture (the letters and digits after `#`) as `#` and its
/// shortest uppercase form (other characters are kept as they are).
pub fn optimize_color(value: &str) -> (r: String)
    ensures
        r@ == seq!['#'] + short_color(value@),
{
    let v = crate::text::chars_of(value);
    let n = v.len();
    let mut out = String::new();
    crate::text::push_char(&mut out, '#');
    assert(out@ == seq!['#']);
    if n == 6 && up_exec(v[0]) == up_exec(v[1]) && up_exec(v[2]) == up_exec(v[3]) && up_exec(v[4]) == up_exec(
        v[5],
    ) {
        crate::text::push_char(&mut out, up_exec(v[0]));
        crate::text::push_char(&mut out, up_exec(v[2]));
        crate::text::push_char(&mut out, up_exec(v[4]));
    } else if n == 8 {
        let opaque = up_exec(v[6]) == 'F' && up_exec(v[7]) == 'F';
        if up_exec(v[0]) == up_exec(v[1]) && up_exec(v[2]) == up_exec(v[3]) && up_exec(v[4]) == up_exec(v[5])
            && up_exec(v[6]) == up_exec(v[7]) {
            crate::text::push_char(&mut out, up_exec(v[0]));
            crate::text::push_char(&mut out, up_exec(v[2]));
            crate::text::push_char(&mut out, up_exec(v[4]));
            if !opaque {
                crate::text::push_char(&mut out, up_exec(v[6]));
            }
        } else if opaque {
            push_upper(&mut out, &v, 6);
        } else {
            push_upper(&mut out, &v, 8);
            assert(v@.take(8) == v@);
        }
    } else if n == 4 && up_exec(v[3]) == 'F' {
        push_upper(&mut out, &v, 3);
    } else {
        push_upper(&mut out, &v, n);
        assert(v@.take(n as int) == v@);
    }
    out
}

/// Spaces inside parentheses.
pub const INNER_TRIM_PATTERN: &'static str = "\\(\\s*([^)]*?)\\s*\\)";
/// A minus before a zero with a unit, `)` or `,`.
pub const MINUS_ZERO_PATTERN: &'static str =
    "-0(px|em|rem|vh|vw|%|dvh|dvw|vmax|vmin|mm|cm|in|pt|pc|lh|ic|deg|\\)|,)";
/// Spaces between a number (with its unit) and the next digit.
pub const NUM_TRIM_PATTERN: &'static str =
    "(\\d(px|em|rem|vh|vw|%|dvh|dvw|vmax|vmin|mm|cm|in|pt|pc|lh|ic|deg)?)\\s+(\\d)";
/// Spaces around a comma.
pub const COMMA_SPACE_PATTERN: &'static str = "\\s*,\\s*";
/// An `rgb()` color.
pub const RGB_PATTERN: &'static str = "rgb\\((\\d+),(\\d+),(\\d+)\\)";
/// A hex color.
pub const COLOR_HASH_PATTERN: &'static str = "#([0-9a-zA-Z]+)";
/// A decimal zero (`0.00`) before a non-digit.
pub const DOT_ZERO_PATTERN: &'static str = "(\\b|,)-?0\\.0+([^\\d])";
/// A leading zero of a decimal.
pub const LEADING_ZERO_PATTERN: &'static str = "(\\b|,)0\\.(\\d+)";
/// A zero with a unit.
pub const ZERO_UNIT_PATTERN: &'static str =
    "(\\b|,|\\(|^|\\s)-?0(px|em|rem|vh|vw|%|dvh|dvw|vmax|vmin|mm|cm|in|pt|pc|lh|ic|deg)";

/// Whether `Regex::new` accepts every pattern of value normalization.
pub open spec fn all_patterns_compile() -> bool {
    &&& regex_compiles(INNER_TRIM_PATTERN@)
    &&& regex_compiles(MINUS_ZERO_PATTERN@)
    &&& regex_compiles(NUM_TRIM_PATTERN@)
    &&& regex_compiles(COMMA_SPACE_PATTERN@)
    &&& regex_compiles(RGB_PATTERN@)
    &&& regex_compiles(COLOR_HASH_PATTERN@)
    &&& regex_compiles(DOT_ZERO_PATTERN@)
    &&& regex_compiles(LEADING_ZERO_PATTERN@)
    &&& regex_compiles(ZERO_UNIT_PATTERN@)
}

/// The compiled regular expressions of value normalization.
pub struct ValuePatterns {
    inner_trim: Pattern,
    minus_zero: Pattern,
    num_trim: Pattern,
    comma_space: Pattern,
    rgb: Pattern,
    color_hash: Pattern,
    dot_zero: Pattern,
    leading_zero: Pattern,
    zero_unit: Pattern,
}

impl ValuePatterns {
    /// Each regex was compiled from its pattern.
    pub closed spec fn wf(&self) -> bool {
        &&& self.inner_trim.source() == INNER_TRIM_PATTERN@
        &&& self.minus_zero.source() == MINUS_ZERO_PATTERN@
        &&& self.num_trim.source() == NUM_TRIM_PATTERN@
        &&& self.comma_space.source() == COMMA_SPACE_PATTERN@
        &&& self.rgb.source() == RGB_PATTERN@
        &&& self.color_hash.source() == COLOR_HASH_PATTERN@
        &&& self.dot_zero.source() == DOT_ZERO_PATTERN@
        &&& self.leading_zero.source() == LEADING_ZERO_PATTERN@
        &&& self.zero_unit.source() == ZERO_UNIT_PATTERN@
    }

    /// The regexes, compiled; `None` exactly when one of the patterns does
    /// not compile.
    pub fn new() -> (r: Option<Self>)
        ensures
            r is Some <==> all_patterns_compile(),
            r matches Some(p) ==> p.wf(),
    {
        let inner_trim = regex_new(INNER_TRIM_PATTERN)?;
        let minus_zero = regex_new(MINUS_ZERO_PATTERN)?;
        let num_trim = regex_new(NUM_TRIM_PATTERN)?;
        let comma_space = regex_new(COMMA_SPACE_PATTERN)?;
        let rgb = regex_new(RGB_PATTERN)?;
        let color_hash = regex_new(COLOR_HASH_PATTERN)?;
        let dot_zero = regex_new(DOT_ZERO_PATTERN)?;
        let leading_zero = regex_new(LEADING_ZERO_PATTERN)?;
        let zero_unit = regex_new(ZERO_UNIT_PATTERN)?;
        Some(
            ValuePatterns {
                inner_trim,
                minus_zero,
                num_trim,
                comma_space,
                rgb,
                color_hash,
                dot_zero,
                leading_zero,
                zero_unit,
            },
        )
    }
}

/// The value of a run of ASCII digits.
pub open spec fn digits_value(d: Seq<char>) -> nat
    decreases d.len(),
{
    if d.len() == 0 {
        0
    } else {
        digits_value(d.drop_last()) * 10 + ((d.last() as nat) - ('0' as nat)) as nat
    }
}

/// Every character is an ASCII digit.
pub open spec fn all_digits(d: Seq<char>) -> bool {
    forall|i: int| 0 <= i < d.len() ==> is_ascii_digit(#[trigger] d[i])
}

/// `str::parse::<i32>`: an optional sign, then one or more ASCII digits,
/// within the range of `i32`.
pub open spec fn parse_i32(s: Seq<char>) -> Option<int> {
    let neg = s.len() > 0 && s[0] == '-';
    let d = if s.len() > 0 && (s[0] == '-' || s[0] == '+') {
        s.drop_first()
    } else {
        s
    };
    if d.len() == 0 || !all_digits(d) {
        None
    } else if neg {
        if digits_value(d) <= 0x8000_0000 {
            Some(-(digits_value(d) as int))
        } else {
            None
        }
    } else if digits_value(d) <= 0x7fff_ffff {
        Some(digits_value(d) as int)
    } else {
        None
    }
}

/// The uppercase hexadecimal digit for `d` (`0 <= d < 16`).
pub open spec fn hex_digit_upper(d: nat) -> char {
    if d < 10 {
        ((('0' as nat) + d) as u32) as char
    } else {
        ((('A' as nat) + d - 10) as u32) as char
    }
}

/// The uppercase hexadecimal digits of `n`.
pub open spec fn hex_upper(n: nat) -> Seq<char>
    decreases n,
{
    if n < 16 {
        seq![hex_digit_upper(n)]
    } else {
        hex_upper(n / 16).push(hex_digit_upper(n % 16))
    }
}

/// `format!("{:02X}", v)` of an `i32`: its bits in uppercase hexadecimal,
/// padded to two digits.
pub open spec fn hex2(v: int) -> Seq<char> {
    let h = hex_upper((if v < 0 { v + 0x1_0000_0000 } else { v }) as nat);
    if h.len() < 2 {
        seq!['0'] + h
    } else {
        h
    }
}

/// An `rgb(r,g,b)` match as `#RRGGBB`; the match itself when a channel
/// does not parse.
pub open spec fn rgb_hex(g: Seq<Option<Seq<char>>>) -> Seq<char> {
    match (parse_i32(group_text(g, 1)), parse_i32(group_text(g, 2)), parse_i32(group_text(g, 3))) {
        (Some(r), Some(gr), Some(b)) => seq!['#'] + hex2(r) + hex2(gr) + hex2(b),
        _ => group_text(g, 0),
    }
}

/// A hex color match in its shortest form.
pub open spec fn color_of(g: Seq<Option<Seq<char>>>) -> Seq<char> {
    seq!['#'] + short_color(group_text(g, 1))
}

fn parse_i32_exec(s: &str) -> (r: Option<i32>)
    ensures
        match r {
            Some(v) => parse_i32(s@) == Some(v as int),
            None => parse_i32(s@).is_none(),
        },
{
    let v = chars_of(s);
    let n = v.len();
    let neg = n > 0 && v[0] == '-';
    let start: usize = if n > 0 && (v[0] == '-' || v[0] == '+') {
        1
    } else {
        0
    };
    let ghost d = v@.skip(start as int);
    assert(d == (if s@.len() > 0 && (s@[0] == '-' || s@[0] == '+') {
        s@.drop_first()
    } else {
        s@
    }));
    if start >= n {
        return None;
    }
    let mut acc: u64 = 0;
    let mut i = start;
    while i < n
        invariant
            start <= i <= n == v@.len(),
            v@ == s@,
            d == v@.skip(start as int),
            d == (if s@.len() > 0 && (s@[0] == '-' || s@[0] == '+') {
                s@.drop_first()
            } else {
                s@
            }),
            d.len() > 0,
            acc <= 0x8000_0001,
            forall|k: int| start <= k < i ==> is_ascii_digit(#[trigger] v@[k]),
            acc <= 0x8000_0000 ==> acc == digits_value(v@.subrange(start as int, i as int)),
            acc == 0x8000_0001 ==> digits_value(v@.subrange(start as int, i as int)) > 0x8000_0000,
        decreases n - i,
    {
        let c = v[i];
        if !('0' <= c && c <= '9') {
            assert(!is_ascii_digit(d[i - start]));
            return None;
        }
        let ghost pre = v@.subrange(start as int, i as int);
        assert(v@.subrange(start as int, i + 1).drop_last() == pre);
        let dv: u64 = ((c as u32) - 48) as u64;
        if acc <= 0x8000_0000 {
            let next = acc * 10 + dv;
            if next <= 0x8000_0000 {
                acc = next;
            } else {
                acc = 0x8000_0001;
            }
        } else {
            assert(digits_value(v@.subrange(start as int, i + 1)) >= digits_value(pre));
        }
        i = i + 1;
    }
    assert(v@.subrange(start as int, n as int) == d);
    if neg {
        if acc <= 0x8000_0000 {
            let m: i64 = acc as i64;
            let r: i64 = -m;
            Some(r as i32)
        } else {
            None
        }
    } else if acc <= 0x7fff_ffff {
        Some(acc as i32)
    } else {
        None
    }
}

fn push_hex_upper(out: &mut Vec<char>, n: u32)
    ensures
        final(out)@ == old(out)@ + hex_upper(n as nat),
    decreases n,
{
    if n >= 16 {
        push_hex_upper(out, n / 16);
    }
    let d: u32 = n % 16;
    if d < 10 {
        out.push(crate::text::char_from_ascii(48 + d));
    } else {
        out.push(crate::text::char_from_ascii(55 + d));
    }
}

fn hex2_exec(v: i32) -> (r: Vec<char>)
    ensures
        r@ == hex2(v as int),
{
    let u: u32 = if v < 0 {
        let w: i64 = (v as i64) + 0x1_0000_0000;
        w as u32
    } else {
        v as u32
    };
    let mut h: Vec<char> = Vec::new();
    push_hex_upper(&mut h, u);
    if h.len() < 2 {
        let mut r: Vec<char> = Vec::new();
        r.push('0');
        crate::text::push_all(&mut r, &h);
        r
    } else {
        h
    }
}

fn rgb_hex_exec(groups: &Vec<Option<String>>) -> (r: String)
    ensures
        r@ == rgb_hex(groups_view(groups@)),
{
    let r = crate::regex_match::group_of(groups, 1);
    let g = crate::regex_match::group_of(groups, 2);
    let b = crate::regex_match::group_of(groups, 3);
    match (parse_i32_exec(r.as_str()), parse_i32_exec(g.as_str()), parse_i32_exec(b.as_str())) {
        (Some(rv), Some(gv), Some(bv)) => {
            let mut out: Vec<char> = Vec::new();
            out.push('#');
            let h = hex2_exec(rv);
            crate::text::push_all(&mut out, &h);
            let h = hex2_exec(gv);
            crate::text::push_all(&mut out, &h);
            let h = hex2_exec(bv);
            crate::text::push_all(&mut out, &h);
            string_from(&out)
        },
        _ => crate::regex_match::group_of(groups, 0),
    }
}

/// How the matches of a pass are replaced.
pub enum Replacement {
    /// By the hex form of an `rgb()` color.
    RgbHex,
    /// By the shortest form of a hex color.
    ShortColor,
}

/// The replacement of a match with groups `g`.
pub open spec fn replacement_of(k: Replacement, g: Seq<Option<Seq<char>>>) -> Seq<char> {
    match k {
        Replacement::RgbHex => rgb_hex(g),
        Replacement::ShortColor => color_of(g),
    }
}

/// Replacing by `k`, as a function of the groups.
pub open spec fn replacing(k: Replacement) -> spec_fn(Seq<Option<Seq<char>>>) -> Seq<char> {
    |g: Seq<Option<Seq<char>>>| replacement_of(k, g)
}

fn replacement_exec(k: &Replacement, groups: &Vec<Option<String>>) -> (r: String)
    ensures
        r@ == replacement_of(*k, groups_view(groups@)),
{
    match k {
        Replacement::RgbHex => rgb_hex_exec(groups),
        Replacement::ShortColor => {
            let c = crate::regex_match::group_of(groups, 1);
            optimize_color(c.as_str())
        },
    }
}

/// `text` with every match of `re` replaced by `k`.
fn replace_all(re: &Pattern, text: &str, k: &Replacement) -> (r: String)
    ensures
        r@ == replaced_text(regex_captures(re.source(), text@), replacing(*k)),
{
    let (found, tail) = captures_all(re, text);
    let ghost f = replacing(*k);
    let ghost mv = matches_view(found@);
    let mut out = String::new();
    let mut i: usize = 0;
    assert(mv.take(0) =~= Seq::<MatchView>::empty());
    while i < found.len()
        invariant
            i <= found@.len(),
            mv == matches_view(found@),
            f == replacing(*k),
            out@ == replaced_pieces(mv.take(i as int), f),
        decreases found@.len() - i,
    {
        assert(mv.take(i + 1).drop_last() == mv.take(i as int));
        let ghost before = out@;
        push_str(&mut out, found[i].before.as_str());
        let rep = replacement_exec(k, &found[i].groups);
        push_str(&mut out, rep.as_str());
        proof {
            let m = mv.take(i + 1).last();
            assert(m == mv[i as int]);
            assert(f(m.1) == replacement_of(*k, m.1));
            assert(out@ =~= before + m.0 + f(m.1));
        }
        i = i + 1;
    }
    assert(mv.take(i as int) == mv);
    push_str(&mut out, tail.as_str());
    out
}

/// The text once every match of `pattern` is replaced by the template.
pub open spec fn template_pass(pattern: Seq<char>, text: Seq<char>, parts: Seq<PartView>) -> Seq<char> {
    replaced_text(regex_captures(pattern, text), filled(parts))
}

/// The text once every match of `pattern` is replaced by `k`.
pub open spec fn replacing_pass(pattern: Seq<char>, text: Seq<char>, k: Replacement) -> Seq<char> {
    replaced_text(regex_captures(pattern, text), replacing(k))
}

/// `(${1})`
pub open spec fn inner_trim_parts() -> Seq<PartView> {
    seq![PartView::Text("("@), PartView::Group(1), PartView::Text(")"@)]
}

/// `0${1}`
pub open spec fn minus_zero_parts() -> Seq<PartView> {
    seq![PartView::Text("0"@), PartView::Group(1)]
}

/// `${1} ${3}`
pub open spec fn num_trim_parts() -> Seq<PartView> {
    seq![PartView::Group(1), PartView::Text(" "@), PartView::Group(3)]
}

/// `,`
pub open spec fn comma_parts() -> Seq<PartView> {
    seq![PartView::Text(","@)]
}

/// `${1}0${2}`
pub open spec fn dot_zero_parts() -> Seq<PartView> {
    seq![PartView::Group(1), PartView::Text("0"@), PartView::Group(2)]
}

/// `${1}.${2}`
pub open spec fn leading_zero_parts() -> Seq<PartView> {
    seq![PartView::Group(1), PartView::Text("."@), PartView::Group(2)]
}

/// `${1}0`
pub open spec fn zero_unit_parts() -> Seq<PartView> {
    seq![PartView::Group(1), PartView::Text("0"@)]
}

fn text_part(s: &str) -> (r: TemplatePart)
    ensures
        r matches TemplatePart::Text(t) && t@ == s@,
{
    let mut t = String::new();
    push_str(&mut t, s);
    TemplatePart::Text(t)
}

/// Whether some character is ASCII whitespace.
pub open spec fn has_ascii_ws(s: Seq<char>) -> bool {
    exists|i: int| 0 <= i < s.len() && #[trigger] is_ascii_ws(s[i])
}

/// A value no normalization step can change: no whitespace, comma,
/// parenthesis, `--`, `;`, `#` or `0`.
pub open spec fn untouched(t: Seq<char>) -> bool {
    &&& !has_ascii_ws(t)
    &&& !t.contains(',')
    &&& !t.contains('(')
    &&& !t.contains(')')
    &&& !contains_seq(t, "--"@)
    &&& !t.contains(';')
    &&& !t.contains('#')
    &&& !t.contains('0')
}

/// A value trimmed, a custom property name wrapped in `var()`, spaces
/// inside parentheses dropped, a minus before a zero length dropped (not in
/// values with custom properties), spaces between numbers made one, and
/// spaces around commas dropped.
pub open spec fn spacing_spec(v: Seq<char>) -> Seq<char> {
    let t = trim(v);
    if untouched(t) {
        t
    } else {
        let wrapped = t.len() >= 2 && t[0] == '-' && t[1] == '-' && !t.contains(' ') && !t.contains(',');
        let s0 = if wrapped {
            "var("@ + t + ")"@
        } else {
            t
        };
        let s1 = if wrapped || t.contains('(') {
            template_pass(INNER_TRIM_PATTERN@, s0, inner_trim_parts())
        } else {
            s0
        };
        let s2 = if !(wrapped || contains_seq(t, "--"@)) {
            template_pass(MINUS_ZERO_PATTERN@, s1, minus_zero_parts())
        } else {
            s1
        };
        let s3 = if has_ascii_ws(s2) {
            template_pass(NUM_TRIM_PATTERN@, s2, num_trim_parts())
        } else {
            s2
        };
        if s3.contains(',') {
            template_pass(COMMA_SPACE_PATTERN@, s3, comma_parts())
        } else {
            s3
        }
    }
}

fn has_ascii_ws_exec(v: &Vec<char>) -> (r: bool)
    ensures
        r == has_ascii_ws(v@),
{
    let mut i: usize = 0;
    while i < v.len()
        invariant
            i <= v@.len(),
            forall|j: int| 0 <= j < i ==> !is_ascii_ws(#[trigger] v@[j]),
        decreases v@.len() - i,
    {
        if crate::text::ascii_ws(v[i]) {
            return true;
        }
        i = i + 1;
    }
    false
}

fn template_pass_exec(re: &Pattern, text: &String, parts: Vec<TemplatePart>, ghost_parts: Ghost<Seq<PartView>>) -> (r: String)
    requires
        parts_view(parts@) == ghost_parts@,
    ensures
        r@ == template_pass(re.source(), text@, ghost_parts@),
{
    replace_with_template(re, text.as_str(), &parts)
}

/// The first stage of value normalization (see [`spacing_spec`]).
pub fn value_spacing(p: &ValuePatterns, value: &str) -> (r: String)
    requires
        p.wf(),
    ensures
        r@ == spacing_spec(value@),
{
    let mut tv: Vec<char> = Vec::new();
    crate::text::push_trimmed(&mut tv, value);
    let t = string_from(&tv);
    let has_paren_open = crate::text::has_char(&tv, '(');
    let dd = crate::text::contains_chars(&tv, &chars_of("--"));
    proof {
        reveal_strlit("--");
        reveal_strlit("var(");
        reveal_strlit(")");
        reveal_strlit("(");
        reveal_strlit("0");
        reveal_strlit(" ");
        reveal_strlit(",");
    }
    if !has_ascii_ws_exec(&tv) && !crate::text::has_char(&tv, ',') && !has_paren_open && !crate::text::has_char(
        &tv,
        ')',
    ) && !dd && !crate::text::has_char(&tv, ';') && !crate::text::has_char(&tv, '#') && !crate::text::has_char(
        &tv,
        '0',
    ) {
        return t;
    }
    let wrapped = tv.len() >= 2 && tv[0] == '-' && tv[1] == '-' && !crate::text::has_char(&tv, ' ')
        && !crate::text::has_char(&tv, ',');
    let mut ret = String::new();
    if wrapped {
        push_str(&mut ret, "var(");
        push_str(&mut ret, t.as_str());
        push_str(&mut ret, ")");
    } else {
        push_str(&mut ret, t.as_str());
    }
    proof {
        assert(ret@ =~= (if wrapped { "var("@ + tv@ + ")"@ } else { tv@ }));
    }
    if wrapped || has_paren_open {
        let parts = vec![text_part("("), TemplatePart::Group(1), text_part(")")];
        assert(parts_view(parts@) =~= inner_trim_parts());
        ret = template_pass_exec(&p.inner_trim, &ret, parts, Ghost(inner_trim_parts()));
    }
    if !(wrapped || dd) {
        let parts = vec![text_part("0"), TemplatePart::Group(1)];
        assert(parts_view(parts@) =~= minus_zero_parts());
        ret = template_pass_exec(&p.minus_zero, &ret, parts, Ghost(minus_zero_parts()));
    }
    let rv = chars_of(ret.as_str());
    if has_ascii_ws_exec(&rv) {
        let parts = vec![TemplatePart::Group(1), text_part(" "), TemplatePart::Group(3)];
        assert(parts_view(parts@) =~= num_trim_parts());
        ret = template_pass_exec(&p.num_trim, &ret, parts, Ghost(num_trim_parts()));
    }
    let rv = chars_of(ret.as_str());
    if crate::text::has_char(&rv, ',') {
        let parts = vec![text_part(",")];
        assert(parts_view(parts@) =~= comma_parts());
        ret = template_pass_exec(&p.comma_space, &ret, parts, Ghost(comma_parts()));
    }
    ret
}

/// `rgb()` colors as hex, hex colors shortened, then (when a `0` is left)
/// the zero decimals and the leading zeros of decimals (when a `.` is left
/// too) and the units of zero lengths dropped; with whether a `0` was left.
pub open spec fn colors_spec(s: Seq<char>) -> (Seq<char>, bool) {
    let s5 = if contains_seq(s, "rgb("@) {
        replacing_pass(RGB_PATTERN@, s, Replacement::RgbHex)
    } else {
        s
    };
    let h = s5.contains('#');
    let z = s5.contains('0');
    let d = s5.contains('.');
    let s6 = if h {
        replacing_pass(COLOR_HASH_PATTERN@, s5, Replacement::ShortColor)
    } else {
        s5
    };
    let s7 = if z && d {
        template_pass(LEADING_ZERO_PATTERN@, template_pass(DOT_ZERO_PATTERN@, s6, dot_zero_parts()), leading_zero_parts())
    } else {
        s6
    };
    let s8 = if z {
        template_pass(ZERO_UNIT_PATTERN@, s7, zero_unit_parts())
    } else {
        s7
    };
    (s8, z)
}

/// The second stage of value normalization (see [`colors_spec`]); it runs
/// after the `rgba()` step, and the `0%` step of math functions follows it
/// when it reports a `0`.
pub fn value_colors(p: &ValuePatterns, value: &str) -> (r: (String, bool))
    requires
        p.wf(),
    ensures
        (r.0@, r.1) == colors_spec(value@),
{
    let mut ret = String::new();
    push_str(&mut ret, value);
    let v = chars_of(value);
    proof {
        reveal_strlit("rgb(");
        reveal_strlit("0");
        reveal_strlit(".");
    }
    if crate::text::contains_chars(&v, &chars_of("rgb(")) {
        ret = replace_all(&p.rgb, ret.as_str(), &Replacement::RgbHex);
    }
    let rv = chars_of(ret.as_str());
    let h = crate::text::has_char(&rv, '#');
    let z = crate::text::has_char(&rv, '0');
    let d = crate::text::has_char(&rv, '.');
    if h {
        ret = replace_all(&p.color_hash, ret.as_str(), &Replacement::ShortColor);
    }
    if z {
        if d {
            let parts = vec![TemplatePart::Group(1), text_part("0"), TemplatePart::Group(2)];
            assert(parts_view(parts@) =~= dot_zero_parts());
            ret = template_pass_exec(&p.dot_zero, &ret, parts, Ghost(dot_zero_parts()));
            let parts = vec![TemplatePart::Group(1), text_part("."), TemplatePart::Group(2)];
            assert(parts_view(parts@) =~= leading_zero_parts());
            ret = template_pass_exec(&p.leading_zero, &ret, parts, Ghost(leading_zero_parts()));
        }
        let parts = vec![TemplatePart::Group(1), text_part("0")];
        assert(parts_view(parts@) =~= zero_unit_parts());
        ret = template_pass_exec(&p.zero_unit, &ret, parts, Ghost(zero_unit_parts()));
    }
    (ret, z)
}

/// The number of times `c` occurs in `s`.
pub open spec fn count_char(s: Seq<char>, c: char) -> int
    decreases s.len(),
{
    if s.len() == 0 {
        0
    } else {
        count_char(s.drop_last(), c) + if s.last() == c {
            1int
        } else {
            0int
        }
    }
}

/// `s` once a suffix `without` (or `with`, a `)` after it) is cut, with the
/// semicolons before it, and `symbol` (and the `)`) put back.
pub open spec fn strip_semi_suffix(s: Seq<char>, symbol: Seq<char>, without: Seq<char>, with: Seq<char>) -> Seq<char> {
    if crate::extract_style::ends_with(s, without) {
        crate::css_utils::without_trailing_semis(s.take(s.len() - without.len())) + symbol
    } else if crate::extract_style::ends_with(s, with) {
        crate::css_utils::without_trailing_semis(s.take(s.len() - with.len())) + symbol + seq![')']
    } else {
        s
    }
}

/// A trailing `;` removed, also inside a closing quote or backtick and
/// before a closing `)`.
pub open spec fn semi_stripped(s: Seq<char>) -> Seq<char> {
    if !s.contains(';') {
        s
    } else {
        let a = strip_semi_suffix(s, Seq::empty(), ";"@, ";)"@);
        let b = strip_semi_suffix(a, "`"@, ";`"@, ";`)"@);
        let c = strip_semi_suffix(b, "\""@, ";\""@, ";\")"@);
        strip_semi_suffix(c, "'"@, ";'"@, ";')"@)
    }
}

/// Parentheses balanced: the missing `(` put in front, or the missing `)`
/// at the end.
pub open spec fn balanced(s: Seq<char>) -> Seq<char> {
    let depth = count_char(s, '(') - count_char(s, ')');
    if !(s.contains('(') || s.contains(')')) {
        s
    } else if depth < 0 {
        Seq::new((-depth) as nat, |i: int| '(') + s
    } else if depth > 0 {
        s + Seq::new(depth as nat, |i: int| ')')
    } else {
        s
    }
}

/// The last stage of value normalization: a trailing `;` removed and the
/// parentheses balanced.
pub open spec fn finished_spec(s: Seq<char>) -> Seq<char> {
    balanced(semi_stripped(s))
}

fn count_char_exec(v: &Vec<char>, c: char) -> (r: usize)
    ensures
        r as int == count_char(v@, c),
{
    let mut n: usize = 0;
    let mut i: usize = 0;
    assert(v@.take(0) =~= Seq::<char>::empty());
    while i < v.len()
        invariant
            i <= v@.len(),
            n <= i,
            n as int == count_char(v@.take(i as int), c),
        decreases v@.len() - i,
    {
        assert(v@.take(i + 1).drop_last() == v@.take(i as int));
        if v[i] == c {
            n = n + 1;
        }
        i = i + 1;
    }
    assert(v@.take(i as int) == v@);
    n
}

fn ends_with_exec(v: &Vec<char>, p: &str) -> (r: bool)
    ensures
        r == crate::extract_style::ends_with(v@, p@),
{
    let pv = chars_of(p);
    if pv.len() > v.len() {
        return false;
    }
    let at = v.len() - pv.len();
    let r = crate::text::starts_with_at(v, at, &pv);
    assert(v@.subrange(at as int, at + pv@.len()) == v@.skip(at as int));
    r
}

fn strip_semi_suffix_exec(v: Vec<char>, symbol: &str, without: &str, with: &str) -> (r: Vec<char>)
    ensures
        r@ == strip_semi_suffix(v@, symbol@, without@, with@),
{
    if ends_with_exec(&v, without) {
        let n = v.len() - without.unicode_len();
        let mut m = n;
        assert(v@.take(n as int).take(m as int) == v@.take(n as int));
        while m > 0 && v[m - 1] == ';'
            invariant
                m <= n <= v@.len(),
                crate::css_utils::without_trailing_semis(v@.take(n as int)) == crate::css_utils::without_trailing_semis(
                    v@.take(m as int),
                ),
            decreases m,
        {
            assert(v@.take(m as int).drop_last() == v@.take(m - 1));
            m = m - 1;
        }
        let mut out: Vec<char> = Vec::new();
        crate::text::push_range(&mut out, &v, 0, m);
        crate::text::push_chars(&mut out, symbol);
        assert(v@.subrange(0, m as int) == v@.take(m as int));
        let ghost w = v@.take(m as int);
        assert(crate::css_utils::without_trailing_semis(w) == w);
        out
    } else if ends_with_exec(&v, with) {
        let n = v.len() - with.unicode_len();
        let mut m = n;
        while m > 0 && v[m - 1] == ';'
            invariant
                m <= n <= v@.len(),
                crate::css_utils::without_trailing_semis(v@.take(n as int)) == crate::css_utils::without_trailing_semis(
                    v@.take(m as int),
                ),
            decreases m,
        {
            assert(v@.take(m as int).drop_last() == v@.take(m - 1));
            m = m - 1;
        }
        let mut out: Vec<char> = Vec::new();
        crate::text::push_range(&mut out, &v, 0, m);
        crate::text::push_chars(&mut out, symbol);
        out.push(')');
        assert(v@.subrange(0, m as int) == v@.take(m as int));
        let ghost w = v@.take(m as int);
        assert(crate::css_utils::without_trailing_semis(w) == w);
        out
    } else {
        v
    }
}

/// The last stage of value normalization (see [`finished_spec`]).
pub fn value_finished(value: &str) -> (r: String)
    ensures
        r@ == finished_spec(value@),
{
    let mut v = chars_of(value);
    proof {
        reveal_strlit("");
        reveal_strlit(";");
        reveal_strlit(";)");
        reveal_strlit("`");
        reveal_strlit(";`");
        reveal_strlit(";`)");
        reveal_strlit("\"");
        reveal_strlit(";\"");
        reveal_strlit(";\")");
        reveal_strlit("'");
        reveal_strlit(";'");
        reveal_strlit(";')");
    }
    if crate::text::has_char(&v, ';') {
        v = strip_semi_suffix_exec(v, "", ";", ";)");
        v = strip_semi_suffix_exec(v, "`", ";`", ";`)");
        v = strip_semi_suffix_exec(v, "\"", ";\"", ";\")");
        v = strip_semi_suffix_exec(v, "'", ";'", ";')");
    }
    let ghost st = v@;
    assert(st == semi_stripped(value@));
    let opens = count_char_exec(&v, '(');
    let closes = count_char_exec(&v, ')');
    if !(crate::text::has_char(&v, '(') || crate::text::has_char(&v, ')')) {
        return string_from(&v);
    }
    if opens < closes {
        let k = closes - opens;
        let mut out: Vec<char> = Vec::new();
        let mut i: usize = 0;
        while i < k
            invariant
                i <= k,
                out@ == Seq::new(i as nat, |j: int| '('),
            decreases k - i,
        {
            out.push('(');
            assert(out@ =~= Seq::new((i + 1) as nat, |j: int| '('));
            i = i + 1;
        }
        crate::text::push_all(&mut out, &v);
        string_from(&out)
    } else if opens > closes {
        let k = opens - closes;
        let mut out: Vec<char> = Vec::new();
        crate::text::push_all(&mut out, &v);
        let mut i: usize = 0;
        while i < k
            invariant
                i <= k,
                out@ == st + Seq::new(i as nat, |j: int| ')'),
            decreases k - i,
        {
            out.push(')');
            assert(out@ =~= st + Seq::new((i + 1) as nat, |j: int| ')'));
            i = i + 1;
        }
        string_from(&out)
    } else {
        string_from(&v)
    }
}

} // verus!
