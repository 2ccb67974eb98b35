//! Naming against an explicit context instead of the build state: a class
//! map, a file map, an optional prefix for every name, and debug mode, whose
//! names spell the selector out in a class-safe encoding.
use vstd::prelude::*;
use bimap::BiHashMap;
use crate::class_map::{class_num_of, file_entries, with_class, ClassMap};
use crate::file_map::{
    bimap_clear, bimap_get_by_left, bimap_get_by_right, bimap_insert, bimap_len, bimap_name,
    empty_file_map, file_num_of, file_pairs, injective, lemma_pair_insert_injective, numbered,
};
use crate::naming::{
    class_key, file_suffix, opt_seq, opt_text, order_of, pairs_after, short_name, style_file,
    style_key, table_of, variable_key,
};
use crate::num_to_nm_base::{nm_name, num_to_nm_base};
use crate::text::{chars_of, decimal, push_all, push_chars, push_decimal, push_trimmed, string_from, trim};

verus! {

/// The state class names are generated against.
pub struct CssContext {
    /// File name to (style key to class number).
    pub class_map: ClassMap,
    /// File name to file number, one-to-one.
    pub file_map: BiHashMap<String, usize>,
    /// A prefix for every generated name.
    pub prefix: Option<String>,
    /// Debug naming.
    pub debug: bool,
}

/// The text of an optional string.
pub open spec fn prefix_text(p: Option<String>) -> Seq<char> {
    match p {
        Some(s) => s@,
        None => Seq::empty(),
    }
}

impl CssContext {
    /// The class map is well formed and the file map one-to-one.
    pub open spec fn wf(&self) -> bool {
        self.class_map.wf() && injective(file_pairs(self.file_map))
    }

    /// An empty context: no classes, no files, no prefix, not debugging.
    pub fn new() -> (r: Self)
        ensures
            r.wf(),
            r.class_map@.len() == 0,
            file_pairs(r.file_map).dom().len() == 0,
            r.prefix.is_none(),
            !r.debug,
    {
        CssContext { class_map: ClassMap::new(), file_map: empty_file_map(), prefix: None, debug: false }
    }

    /// The number of a file, numbering it when it has none.
    pub fn get_file_num(&mut self, filename: &str) -> (r: usize)
        requires
            old(self).wf(),
        ensures
            final(self).wf(),
            r == file_num_of(file_pairs(old(self).file_map), filename@),
            file_pairs(final(self).file_map) == numbered(file_pairs(old(self).file_map), filename@),
            final(self).class_map == old(self).class_map,
            final(self).prefix == old(self).prefix,
            final(self).debug == old(self).debug,
    {
        let len = bimap_len(&self.file_map);
        if bimap_get_by_left(&self.file_map, filename).is_none() {
            proof {
                lemma_pair_insert_injective(file_pairs(self.file_map), filename@, len);
            }
            bimap_insert(&mut self.file_map, filename, len);
        }
        match bimap_get_by_left(&self.file_map, filename) {
            Some(n) => n,
            None => len,
        }
    }

    /// The name of the file with number `file_num`.
    pub fn get_filename(&self, file_num: usize) -> (r: Option<&str>)
        ensures
            match r {
                Some(s) => file_pairs(self.file_map).contains_key(s@) && file_pairs(self.file_map)[s@]
                    == file_num,
                None => bimap_name(file_pairs(self.file_map), file_num).is_none(),
            },
    {
        bimap_get_by_right(&self.file_map, file_num)
    }

    /// Forget every class and file number.
    pub fn reset(&mut self)
        ensures
            final(self).wf(),
            final(self).class_map@.len() == 0,
            file_pairs(final(self).file_map).dom().len() == 0,
            final(self).prefix == old(self).prefix,
            final(self).debug == old(self).debug,
    {
        self.class_map.clear();
        bimap_clear(&mut self.file_map);
    }
}

/// The lowercase hexadecimal digits of `n`.
pub open spec fn hex(n: nat) -> Seq<char>
    decreases n,
{
    if n < 16 {
        seq![hex_digit(n)]
    } else {
        hex(n / 16).push(hex_digit(n % 16))
    }
}

/// The lowercase hexadecimal digit for `d` (`0 <= d < 16`).
pub open spec fn hex_digit(d: nat) -> char {
    if d < 10 {
        ((('0' as nat) + d) as u32) as char
    } else {
        ((('a' as nat) + d - 10) as u32) as char
    }
}

/// `h` padded with leading zeros to at least four digits.
pub open spec fn pad4(h: Seq<char>) -> Seq<char> {
    if h.len() >= 4 {
        h
    } else {
        Seq::new((4 - h.len()) as nat, |i: int| '0') + h
    }
}

/// The class-safe encoding of a selector character.
pub open spec fn encode_char(c: char) -> Seq<char> {
    if c == '&' {
        "_a_"@
    } else if c == ':' {
        "_c_"@
    } else if c == '(' {
        "_lp_"@
    } else if c == ')' {
        "_rp_"@
    } else if c == '[' {
        "_lb_"@
    } else if c == ']' {
        "_rb_"@
    } else if c == '=' {
        "_eq_"@
    } else if c == '>' {
        "_gt_"@
    } else if c == '<' {
        "_lt_"@
    } else if c == '~' {
        "_tl_"@
    } else if c == '+' {
        "_pl_"@
    } else if c == ' ' {
        "_s_"@
    } else if c == '*' {
        "_st_"@
    } else if c == '.' {
        "_d_"@
    } else if c == '#' {
        "_h_"@
    } else if c == ',' {
        "_cm_"@
    } else if c == '"' {
        "_dq_"@
    } else if c == '\'' {
        "_sq_"@
    } else if c == '/' {
        "_sl_"@
    } else if c == '\\' {
        "_bs_"@
    } else if c == '%' {
        "_pc_"@
    } else if c == '^' {
        "_cr_"@
    } else if c == '$' {
        "_dl_"@
    } else if c == '|' {
        "_pp_"@
    } else if c == '@' {
        "_at_"@
    } else if c == '!' {
        "_ex_"@
    } else if c == '?' {
        "_qm_"@
    } else if c == ';' {
        "_sc_"@
    } else if c == '{' {
        "_lc_"@
    } else if c == '}' {
        "_rc_"@
    } else if c == '-' || c == '_' || crate::text::is_ascii_alnum(c) {
        seq![c]
    } else {
        "_u"@ + pad4(hex(c as nat)) + "_"@
    }
}

/// The class-safe encoding of a selector, character by character.
pub open spec fn encode(s: Seq<char>) -> Seq<char>
    decreases s.len(),
{
    if s.len() == 0 {
        Seq::empty()
    } else {
        encode(s.drop_last()) + encode_char(s.last())
    }
}

fn push_hex(out: &mut Vec<char>, n: u32)
    ensures
        final(out)@ == old(out)@ + hex(n as nat),
    decreases n,
{
    if n >= 16 {
        push_hex(out, n / 16);
    }
    let d: u32 = n % 16;
    let c = if d < 10 {
        crate::text::char_from_ascii(48 + d)
    } else {
        crate::text::char_from_ascii(87 + d)
    };
    out.push(c);
}

fn push_encoded_char(out: &mut Vec<char>, c: char)
    ensures
        final(out)@ == old(out)@ + encode_char(c),
{
    let code: Option<&str> = if c == '&' {
        Some("_a_")
    } else if c == ':' {
        Some("_c_")
    } else if c == '(' {
        Some("_lp_")
    } else if c == ')' {
        Some("_rp_")
    } else if c == '[' {
        Some("_lb_")
    } else if c == ']' {
        Some("_rb_")
    } else if c == '=' {
        Some("_eq_")
    } else if c == '>' {
        Some("_gt_")
    } else if c == '<' {
        Some("_lt_")
    } else if c == '~' {
        Some("_tl_")
    } else if c == '+' {
        Some("_pl_")
    } else if c == ' ' {
        Some("_s_")
    } else if c == '*' {
        Some("_st_")
    } else if c == '.' {
        Some("_d_")
    } else if c == '#' {
        Some("_h_")
    } else if c == ',' {
        Some("_cm_")
    } else if c == '"' {
        Some("_dq_")
    } else if c == '\'' {
        Some("_sq_")
    } else if c == '/' {
        Some("_sl_")
    } else if c == '\\' {
        Some("_bs_")
    } else if c == '%' {
        Some("_pc_")
    } else if c == '^' {
        Some("_cr_")
    } else if c == '$' {
        Some("_dl_")
    } else if c == '|' {
        Some("_pp_")
    } else if c == '@' {
        Some("_at_")
    } else if c == '!' {
        Some("_ex_")
    } else if c == '?' {
        Some("_qm_")
    } else if c == ';' {
        Some("_sc_")
    } else if c == '{' {
        Some("_lc_")
    } else if c == '}' {
        Some("_rc_")
    } else {
        None
    };
    match code {
        Some(text) => {
            push_chars(out, text);
            return;
        },
        None => {},
    }
    if c == '-' || c == '_' || crate::text::ascii_alnum(c) {
        out.push(c);
        return;
    }
    let mut h: Vec<char> = Vec::new();
    push_hex(&mut h, c as u32);
    push_chars(out, "_u");
    let pad: usize = if h.len() < 4 {
        4 - h.len()
    } else {
        0
    };
    let ghost base = out@;
    let mut j: usize = 0;
    while j < pad
        invariant
            j <= pad,
            out@ == base + Seq::new(j as nat, |i: int| '0'),
        decreases pad - j,
    {
        out.push('0');
        assert(Seq::new((j + 1) as nat, |i: int| '0') =~= Seq::new(j as nat, |i: int| '0').push('0'));
        j = j + 1;
    }
    push_all(out, &h);
    push_chars(out, "_");
    proof {
        if h@.len() >= 4 {
            assert(Seq::new(0, |i: int| '0') =~= Seq::<char>::empty());
        }
        assert(out@ =~= old(out)@ + encode_char(c));
    }
}

/// Encode a selector so that it can stand in a class name.
pub fn encode_selector(selector: &str) -> (r: String)
    ensures
        r@ == encode(selector@),
{
    let v = chars_of(selector);
    let mut out: Vec<char> = Vec::new();
    let mut i: usize = 0;
    while i < v.len()
        invariant
            i <= v@.len(),
            out@ == encode(v@.take(i as int)),
        decreases v@.len() - i,
    {
        assert(v@.take(i + 1).drop_last() == v@.take(i as int));
        push_encoded_char(&mut out, v[i]);
        i = i + 1;
    }
    assert(v@.take(i as int) == v@);
    string_from(&out)
}

/// A selector as a debug name shows it: encoded, or nothing when empty.
pub open spec fn encoded_selector(selector: Option<Seq<char>>) -> Seq<char> {
    let s = trim(opt_text(selector));
    if s.len() == 0 {
        Seq::empty()
    } else {
        encode(s)
    }
}

/// The class name of a style in a context, given the context before the
/// call: the prefix, then the spelled-out key in debug mode or else the short
/// name of the key's number (after the file's number for a per-file style).
pub open spec fn ctx_class_name(
    ctx: CssContext,
    property: Seq<char>,
    level: u8,
    value: Option<Seq<char>>,
    selector: Option<Seq<char>>,
    style_order: Option<u8>,
    filename: Option<Seq<char>>,
) -> Seq<char> {
    let pairs = file_pairs(ctx.file_map);
    let file = style_file(style_order, filename);
    prefix_text(ctx.prefix) + if ctx.debug {
        class_key(
            property,
            level,
            opt_text(value),
            encoded_selector(selector),
            order_of(style_order),
            file_suffix(pairs, file),
        )
    } else {
        let key = style_key(pairs, property, level, value, selector, style_order, filename);
        short_name(pairs, file, class_num_of(file_entries(ctx.class_map@, table_of(style_order, filename)), key))
    }
}

/// The class map of a context after naming a style.
pub open spec fn ctx_class_map_after(
    ctx: CssContext,
    property: Seq<char>,
    level: u8,
    value: Option<Seq<char>>,
    selector: Option<Seq<char>>,
    style_order: Option<u8>,
    filename: Option<Seq<char>>,
) -> Seq<(Seq<char>, Seq<(Seq<char>, usize)>)> {
    if ctx.debug {
        ctx.class_map@
    } else {
        let key = style_key(file_pairs(ctx.file_map), property, level, value, selector, style_order, filename);
        let table = table_of(style_order, filename);
        with_class(ctx.class_map@, table, key, class_num_of(file_entries(ctx.class_map@, table), key))
    }
}

fn push_u64(out: &mut Vec<char>, n: u64)
    ensures
        final(out)@ == old(out)@ + decimal(n as nat),
{
    push_decimal(out, n);
}

fn trimmed(s: Option<&str>) -> (r: Vec<char>)
    ensures
        r@ == trim(opt_text(opt_seq(s))),
{
    let mut r: Vec<char> = Vec::new();
    match s {
        Some(t) => push_trimmed(&mut r, t),
        None => {
            proof {
                assert(trim(Seq::<char>::empty()) == Seq::<char>::empty()) by {
                    reveal_with_fuel(crate::text::trim_start, 1);
                    reveal_with_fuel(crate::text::trim_end, 1);
                }
            }
        },
    }
    r
}

fn key_with(
    property: &str,
    level: u8,
    value: Option<&str>,
    sel_part: &Vec<char>,
    style_order: Option<u8>,
    file_num: Option<usize>,
) -> (r: Vec<char>)
    ensures
        r@ == class_key(
            property@,
            level,
            opt_text(opt_seq(value)),
            sel_part@,
            order_of(style_order),
            match file_num {
                Some(n) => seq!['-'] + decimal(n as nat),
                None => Seq::<char>::empty(),
            },
        ),
{
    let mut key: Vec<char> = Vec::new();
    push_trimmed(&mut key, property);
    key.push('-');
    push_u64(&mut key, level as u64);
    key.push('-');
    match value {
        Some(v) => push_chars(&mut key, v),
        None => {},
    }
    key.push('-');
    push_all(&mut key, sel_part);
    key.push('-');
    let order: u8 = match style_order {
        Some(o) => o,
        None => 255,
    };
    push_u64(&mut key, order as u64);
    match file_num {
        Some(n) => {
            key.push('-');
            push_u64(&mut key, n as u64);
        },
        None => {},
    }
    key
}

fn push_prefix(out: &mut Vec<char>, prefix: &Option<String>)
    ensures
        final(out)@ == old(out)@ + prefix_text(*prefix),
{
    match prefix {
        Some(p) => push_chars(out, p.as_str()),
        None => {},
    }
}

/// The class name of a style in a context (see [`ctx_class_name`]).
pub fn sheet_to_classname_with_context(
    ctx: &mut CssContext,
    property: &str,
    level: u8,
    value: Option<&str>,
    selector: Option<&str>,
    style_order: Option<u8>,
    filename: Option<&str>,
) -> (r: String)
    requires
        old(ctx).wf(),
    ensures
        final(ctx).wf(),
        final(ctx).prefix == old(ctx).prefix,
        final(ctx).debug == old(ctx).debug,
        file_pairs(final(ctx).file_map) == pairs_after(
            file_pairs(old(ctx).file_map),
            style_file(style_order, opt_seq(filename)),
        ),
        r@ == ctx_class_name(*old(ctx), property@, level, opt_seq(value), opt_seq(selector), style_order, opt_seq(filename)),
        final(ctx).class_map@ == ctx_class_map_after(
            *old(ctx),
            property@,
            level,
            opt_seq(value),
            opt_seq(selector),
            style_order,
            opt_seq(filename),
        ),
{
    let file: Option<&str> = match style_order {
        Some(o) => if o == 0 {
            None
        } else {
            filename
        },
        None => filename,
    };
    let ghost pairs = file_pairs(ctx.file_map);
    let file_num: Option<usize> = match file {
        Some(f) => Some(ctx.get_file_num(f)),
        None => None,
    };
    let sel = trimmed(selector);
    let sel_part: Vec<char> = if ctx.debug {
        if sel.len() > 0 {
            let s = string_from(&sel);
            let e = encode_selector(s.as_str());
            chars_of(e.as_str())
        } else {
            Vec::new()
        }
    } else {
        sel
    };
    let key = key_with(property, level, value, &sel_part, style_order, file_num);
    proof {
        let fv = style_file(style_order, opt_seq(filename));
        assert(file_suffix(pairs, fv) == match file_num {
            Some(n) => seq!['-'] + decimal(n as nat),
            None => Seq::<char>::empty(),
        });
    }
    let mut out: Vec<char> = Vec::new();
    push_prefix(&mut out, &ctx.prefix);
    if ctx.debug {
        push_all(&mut out, &key);
        return string_from(&out);
    }
    let table: Vec<char> = match file {
        Some(f) => chars_of(f),
        None => Vec::new(),
    };
    assert(table@ == table_of(style_order, opt_seq(filename)));
    let n = ctx.class_map.number_in(&table, &key);
    match file_num {
        Some(fnum) => if table.len() > 0 {
            let f = num_to_nm_base(fnum);
            push_chars(&mut out, f.as_str());
            out.push('-');
        },
        None => {},
    }
    let name = num_to_nm_base(n);
    push_chars(&mut out, name.as_str());
    string_from(&out)
}

/// The name of a dynamic style's CSS variable in a context: `--`, the
/// prefix, then the spelled-out key in debug mode or the short name of the
/// key's number among the shared classes.
pub open spec fn ctx_variable_name(
    ctx: CssContext,
    property: Seq<char>,
    level: u8,
    selector: Option<Seq<char>>,
) -> Seq<char> {
    seq!['-', '-'] + prefix_text(ctx.prefix) + if ctx.debug {
        property + seq!['-'] + decimal(level as nat) + seq!['-'] + encoded_selector(selector)
    } else {
        nm_name(
            class_num_of(file_entries(ctx.class_map@, Seq::empty()), variable_key(property, level, selector)) as nat,
        )
    }
}

/// The CSS variable name of a dynamic style in a context.
pub fn sheet_to_variable_name_with_context(
    ctx: &mut CssContext,
    property: &str,
    level: u8,
    selector: Option<&str>,
) -> (r: String)
    requires
        old(ctx).wf(),
    ensures
        final(ctx).wf(),
        final(ctx).prefix == old(ctx).prefix,
        final(ctx).debug == old(ctx).debug,
        final(ctx).file_map == old(ctx).file_map,
        r@ == ctx_variable_name(*old(ctx), property@, level, opt_seq(selector)),
        final(ctx).class_map@ == (if old(ctx).debug {
            old(ctx).class_map@
        } else {
            let key = variable_key(property@, level, opt_seq(selector));
            with_class(
                old(ctx).class_map@,
                Seq::empty(),
                key,
                class_num_of(file_entries(old(ctx).class_map@, Seq::empty()), key),
            )
        }),
{
    let sel = trimmed(selector);
    let mut out: Vec<char> = Vec::new();
    out.push('-');
    out.push('-');
    push_prefix(&mut out, &ctx.prefix);
    if ctx.debug {
        push_chars(&mut out, property);
        out.push('-');
        push_u64(&mut out, level as u64);
        out.push('-');
        if sel.len() > 0 {
            let s = string_from(&sel);
            let e = encode_selector(s.as_str());
            push_chars(&mut out, e.as_str());
        }
        return string_from(&out);
    }
    let mut key: Vec<char> = Vec::new();
    push_chars(&mut key, property);
    key.push('-');
    push_u64(&mut key, level as u64);
    key.push('-');
    push_all(&mut key, &sel);
    assert(key@ =~= variable_key(property@, level, opt_seq(selector)));
    let table: Vec<char> = Vec::new();
    let n = ctx.class_map.number_in(&table, &key);
    let name = num_to_nm_base(n);
    push_chars(&mut out, name.as_str());
    string_from(&out)
}

/// The name of a keyframes animation in a context: the prefix, then `k-`
/// and its name in debug mode, or the short name of the number `k-name` gets
/// in the file's class table (after the file's number when a file is given).
pub open spec fn ctx_keyframes_name(ctx: CssContext, keyframes: Seq<char>, filename: Option<Seq<char>>) -> Seq<
    char,
> {
    let f = opt_text(filename);
    let pairs = file_pairs(ctx.file_map);
    let n = class_num_of(file_entries(ctx.class_map@, f), seq!['k', '-'] + keyframes);
    prefix_text(ctx.prefix) + if ctx.debug {
        seq!['k', '-'] + keyframes
    } else if f.len() > 0 {
        nm_name(file_num_of(pairs, f) as nat) + seq!['-'] + nm_name(n as nat)
    } else {
        nm_name(n as nat)
    }
}

/// The keyframes name of an animation in a context.
pub fn keyframes_to_keyframes_name_with_context(
    ctx: &mut CssContext,
    keyframes: &str,
    filename: Option<&str>,
) -> (r: String)
    requires
        old(ctx).wf(),
    ensures
        final(ctx).wf(),
        final(ctx).prefix == old(ctx).prefix,
        final(ctx).debug == old(ctx).debug,
        r@ == ctx_keyframes_name(*old(ctx), keyframes@, opt_seq(filename)),
        ({
            let f = opt_text(opt_seq(filename));
            let key = seq!['k', '-'] + keyframes@;
            if old(ctx).debug {
                final(ctx).class_map == old(ctx).class_map && final(ctx).file_map == old(ctx).file_map
            } else {
                &&& final(ctx).class_map@ == with_class(
                    old(ctx).class_map@,
                    f,
                    key,
                    class_num_of(file_entries(old(ctx).class_map@, f), key),
                )
                &&& file_pairs(final(ctx).file_map) == (if f.len() > 0 {
                    numbered(file_pairs(old(ctx).file_map), f)
                } else {
                    file_pairs(old(ctx).file_map)
                })
            }
        }),
{
    let mut key: Vec<char> = Vec::new();
    key.push('k');
    key.push('-');
    push_chars(&mut key, keyframes);
    assert(key@ =~= seq!['k', '-'] + keyframes@);
    let mut out: Vec<char> = Vec::new();
    push_prefix(&mut out, &ctx.prefix);
    if ctx.debug {
        push_all(&mut out, &key);
        return string_from(&out);
    }
    let table: Vec<char> = match filename {
        Some(f) => chars_of(f),
        None => Vec::new(),
    };
    assert(table@ == opt_text(opt_seq(filename)));
    let file_num: Option<usize> = if table.len() > 0 {
        let f = string_from(&table);
        Some(ctx.get_file_num(f.as_str()))
    } else {
        None
    };
    let n = ctx.class_map.number_in(&table, &key);
    match file_num {
        Some(fnum) => {
            let f = num_to_nm_base(fnum);
            push_chars(&mut out, f.as_str());
            out.push('-');
        },
        None => {},
    }
    let name = num_to_nm_base(n);
    push_chars(&mut out, name.as_str());
    string_from(&out)
}

} // verus!
