//! Class, variable and keyframes names. Outside debug mode a name is the
//! short name of the number its key gets in the class map (prefixed by the
//! file's number for per-file styles); in debug mode it spells the key out.
use vstd::prelude::*;
use std::collections::hash_map::DefaultHasher;
use std::hash::{Hash, Hasher};
use vstd::std_specs::hash::DefaultHasherAdditionalSpecFns;
use crate::class_map::{
    assoc_set, class_num_of, file_entries, index_of, keys_distinct, lemma_assoc_set, lemma_assoc_set_same,
    lemma_index_of, lookup, numbers_dense, tables_wf, with_class,
};
use crate::file_map::{file_num_of, file_pairs, get_file_num_by_filename, numbered};
use crate::num_to_nm_base::{lemma_nm_name_injective, nm_name, num_to_nm_base};
use crate::state::CssState;
use crate::text::{chars_of, decimal, push_all, push_chars, push_decimal, push_trimmed, push_str, string_from, trim};

verus! {

/// The writes `<str as Hash>::hash` makes into a hasher for string `s`.
pub uninterp spec fn str_hash_writes(s: Seq<char>) -> Seq<Seq<u8>>;

/// `<str as Hash>::hash`: feed `s` to the hasher. What it writes is named
/// by `str_hash_writes`, a function of `s` alone.
#[verifier::external_body]
fn hash_str_into(s: &str, state: &mut DefaultHasher)
    ensures
        final(state)@ == old(state)@ + str_hash_writes(s@),
{
    s.hash(state);
}

/// The hash of a selector with the default hasher.
pub open spec fn selector_hash(s: Seq<char>) -> u64 {
    DefaultHasher::spec_finish(Seq::<Seq<u8>>::empty() + str_hash_writes(s))
}

fn hash_selector(s: &str) -> (r: u64)
    ensures
        r == selector_hash(s@),
{
    let mut hasher = DefaultHasher::new();
    hash_str_into(s, &mut hasher);
    hasher.finish()
}

/// The text of an optional string slice.
pub open spec fn opt_seq(o: Option<&str>) -> Option<Seq<char>> {
    match o {
        Some(s) => Some(s@),
        None => None,
    }
}

/// The text of an optional string (empty when absent).
pub open spec fn opt_text(o: Option<Seq<char>>) -> Seq<char> {
    match o {
        Some(s) => s,
        None => Seq::empty(),
    }
}

/// The file a style is numbered in: none for the base style (order 0).
pub open spec fn style_file(style_order: Option<u8>, filename: Option<Seq<char>>) -> Option<Seq<char>> {
    if style_order == Some(0u8) {
        None
    } else {
        filename
    }
}

/// The style order written into a key (255 when absent).
pub open spec fn order_of(style_order: Option<u8>) -> nat {
    match style_order {
        Some(o) => o as nat,
        None => 255,
    }
}

/// `-` and the file's number, for a per-file style.
pub open spec fn file_suffix(pairs: Map<Seq<char>, usize>, file: Option<Seq<char>>) -> Seq<char> {
    match file {
        Some(f) => seq!['-'] + decimal(file_num_of(pairs, f) as nat),
        None => Seq::empty(),
    }
}

/// The file map once the style's file (if any) is numbered.
pub open spec fn pairs_after(pairs: Map<Seq<char>, usize>, file: Option<Seq<char>>) -> Map<Seq<char>, usize> {
    match file {
        Some(f) => numbered(pairs, f),
        None => pairs,
    }
}

/// `property-level-value-selector-order[-file]`.
pub open spec fn class_key(
    property: Seq<char>,
    level: u8,
    value: Seq<char>,
    selector: Seq<char>,
    order: nat,
    file_part: Seq<char>,
) -> Seq<char> {
    trim(property) + seq!['-'] + decimal(level as nat) + seq!['-'] + value + seq!['-'] + selector
        + seq!['-'] + decimal(order) + file_part
}

/// The selector as a debug name shows it: the decimal hash of the trimmed
/// selector, or nothing for an empty one.
pub open spec fn debug_selector(selector: Option<Seq<char>>) -> Seq<char> {
    let s = trim(opt_text(selector));
    if s.len() == 0 {
        Seq::empty()
    } else {
        decimal(selector_hash(s) as nat)
    }
}

/// The short name of class number `n` in file `file` (prefixed by the file's
/// number when the file name is not empty).
pub open spec fn short_name(pairs: Map<Seq<char>, usize>, file: Option<Seq<char>>, n: usize) -> Seq<char> {
    match file {
        Some(f) => if f.len() > 0 {
            nm_name(file_num_of(pairs, f) as nat) + seq!['-'] + nm_name(n as nat)
        } else {
            nm_name(n as nat)
        },
        None => nm_name(n as nat),
    }
}

/// The key a style gets in the class map.
pub open spec fn style_key(
    pairs: Map<Seq<char>, usize>,
    property: Seq<char>,
    level: u8,
    value: Option<Seq<char>>,
    selector: Option<Seq<char>>,
    style_order: Option<u8>,
    filename: Option<Seq<char>>,
) -> Seq<char> {
    class_key(
        property,
        level,
        opt_text(value),
        trim(opt_text(selector)),
        order_of(style_order),
        file_suffix(pairs, style_file(style_order, filename)),
    )
}

/// The class table a style is numbered in (the empty name for shared styles).
pub open spec fn table_of(style_order: Option<u8>, filename: Option<Seq<char>>) -> Seq<char> {
    match style_file(style_order, filename) {
        Some(f) => f,
        None => Seq::empty(),
    }
}

/// The class name of a style, given debug mode, the class map and the file
/// numbers before the call.
pub open spec fn class_name_in(
    debug: bool,
    cm: Seq<(Seq<char>, Seq<(Seq<char>, usize)>)>,
    pairs: Map<Seq<char>, usize>,
    property: Seq<char>,
    level: u8,
    value: Option<Seq<char>>,
    selector: Option<Seq<char>>,
    style_order: Option<u8>,
    filename: Option<Seq<char>>,
) -> Seq<char> {
    let file = style_file(style_order, filename);
    if debug {
        class_key(
            property,
            level,
            opt_text(value),
            debug_selector(selector),
            order_of(style_order),
            file_suffix(pairs, file),
        )
    } else {
        let key = style_key(pairs, property, level, value, selector, style_order, filename);
        short_name(pairs, file, class_num_of(file_entries(cm, table_of(style_order, filename)), key))
    }
}

/// The class name of a style, given the state before the call.
pub open spec fn class_name_of(
    st: CssState,
    property: Seq<char>,
    level: u8,
    value: Option<Seq<char>>,
    selector: Option<Seq<char>>,
    style_order: Option<u8>,
    filename: Option<Seq<char>>,
) -> Seq<char> {
    class_name_in(st.debug, st.class_map@, file_pairs(st.file_map), property, level, value, selector, style_order, filename)
}

/// The class map after naming a style, given debug mode, the class map and
/// the file numbers before the call.
pub open spec fn class_map_in(
    debug: bool,
    cm: Seq<(Seq<char>, Seq<(Seq<char>, usize)>)>,
    pairs: Map<Seq<char>, usize>,
    property: Seq<char>,
    level: u8,
    value: Option<Seq<char>>,
    selector: Option<Seq<char>>,
    style_order: Option<u8>,
    filename: Option<Seq<char>>,
) -> Seq<(Seq<char>, Seq<(Seq<char>, usize)>)> {
    if debug {
        cm
    } else {
        let key = style_key(pairs, property, level, value, selector, style_order, filename);
        let table = table_of(style_order, filename);
        with_class(cm, table, key, class_num_of(file_entries(cm, table), key))
    }
}

/// The class map after naming a style, given the state before the call.
pub open spec fn class_map_after(
    st: CssState,
    property: Seq<char>,
    level: u8,
    value: Option<Seq<char>>,
    selector: Option<Seq<char>>,
    style_order: Option<u8>,
    filename: Option<Seq<char>>,
) -> Seq<(Seq<char>, Seq<(Seq<char>, usize)>)> {
    class_map_in(st.debug, st.class_map@, file_pairs(st.file_map), property, level, value, selector, style_order, filename)
}

/// The key of a CSS variable: `property-level-selector`.
pub open spec fn variable_key(property: Seq<char>, level: u8, selector: Option<Seq<char>>) -> Seq<char> {
    property + seq!['-'] + decimal(level as nat) + seq!['-'] + trim(opt_text(selector))
}

/// The name of a dynamic style's CSS variable, given debug mode and the
/// class map before the call.
pub open spec fn variable_name_of(
    debug: bool,
    cm: Seq<(Seq<char>, Seq<(Seq<char>, usize)>)>,
    property: Seq<char>,
    level: u8,
    selector: Option<Seq<char>>,
) -> Seq<char> {
    if debug {
        seq!['-', '-'] + property + seq!['-'] + decimal(level as nat) + seq!['-'] + debug_selector(selector)
    } else {
        seq!['-', '-'] + nm_name(
            class_num_of(file_entries(cm, Seq::empty()), variable_key(property, level, selector)) as nat,
        )
    }
}

/// The class map after naming a CSS variable.
pub open spec fn variable_map_after(
    debug: bool,
    cm: Seq<(Seq<char>, Seq<(Seq<char>, usize)>)>,
    property: Seq<char>,
    level: u8,
    selector: Option<Seq<char>>,
) -> Seq<(Seq<char>, Seq<(Seq<char>, usize)>)> {
    if debug {
        cm
    } else {
        let key = variable_key(property, level, selector);
        with_class(cm, Seq::empty(), key, class_num_of(file_entries(cm, Seq::empty()), key))
    }
}

/// Everything but the class map and the file map is unchanged.
pub open spec fn same_settings(a: CssState, b: CssState) -> bool {
    &&& a.debug == b.debug
    &&& a.atom_hoist == b.atom_hoist
    &&& a.canonical_map == b.canonical_map
    &&& a.file_routes == b.file_routes
    &&& a.length_tokens == b.length_tokens
    &&& a.shadow_tokens == b.shadow_tokens
}

fn push_u64(out: &mut Vec<char>, n: u64)
    ensures
        final(out)@ == old(out)@ + decimal(n as nat),
{
    push_decimal(out, n);
}

fn trimmed_chars(s: Option<&str>) -> (r: Vec<char>)
    ensures
        r@ == trim(opt_text(opt_seq(s))),
{
    let mut r: Vec<char> = Vec::new();
    match s {
        Some(t) => push_trimmed(&mut r, t),
        None => {
            proof {
                assert(trim(Seq::<char>::empty()) == Seq::<char>::empty()) by {
                    reveal_with_fuel(crate::text::trim_start, 1);
                    reveal_with_fuel(crate::text::trim_end, 1);
                }
            }
        },
    }
    r
}

/// The key of a style: `property-level-value-selector-order`, then `-` and
/// the file number when there is one; the selector is trimmed, or hashed in
/// debug mode.
fn build_key(
    debug: bool,
    property: &str,
    level: u8,
    value: Option<&str>,
    selector: Option<&str>,
    style_order: Option<u8>,
    file_num: Option<usize>,
) -> (r: Vec<char>)
    ensures
        r@ == class_key(
            property@,
            level,
            opt_text(opt_seq(value)),
            if debug {
                debug_selector(opt_seq(selector))
            } else {
                trim(opt_text(opt_seq(selector)))
            },
            order_of(style_order),
            match file_num {
                Some(n) => seq!['-'] + decimal(n as nat),
                None => Seq::<char>::empty(),
            },
        ),
{
    let sel = trimmed_chars(selector);
    let mut key: Vec<char> = Vec::new();
    push_trimmed(&mut key, property);
    key.push('-');
    push_u64(&mut key, level as u64);
    key.push('-');
    match value {
        Some(v) => push_chars(&mut key, v),
        None => {},
    }
    key.push('-');
    let ghost before_sel = key@;
    if debug {
        if sel.len() > 0 {
            let s = string_from(&sel);
            let h = hash_selector(s.as_str());
            push_u64(&mut key, h);
        }
    } else {
        push_all(&mut key, &sel);
    }
    let ghost sel_part = if debug { debug_selector(opt_seq(selector)) } else { trim(opt_text(opt_seq(selector))) };
    assert(key@ =~= before_sel + sel_part);
    key.push('-');
    let order: u8 = match style_order {
        Some(o) => o,
        None => 255,
    };
    push_u64(&mut key, order as u64);
    match file_num {
        Some(n) => {
            key.push('-');
            push_u64(&mut key, n as u64);
        },
        None => {},
    }
    key
}

/// The class name of a style: its property, breakpoint level, value (as
/// `optimize_value` leaves it), selector, style order and file. Outside debug
/// mode the key gets a number in its file's class table (the next number when
/// it is new) and the name is that number's short name, after the file's
/// number for a per-file style; the base style (order 0) is never per-file.
/// In debug mode the name spells the key out, with the selector hashed.
pub fn sheet_to_classname(
    st: &mut CssState,
    property: &str,
    level: u8,
    value: Option<&str>,
    selector: Option<&str>,
    style_order: Option<u8>,
    filename: Option<&str>,
) -> (r: String)
    requires
        old(st).wf(),
    ensures
        final(st).wf(),
        same_settings(*final(st), *old(st)),
        file_pairs(final(st).file_map) == pairs_after(
            file_pairs(old(st).file_map),
            style_file(style_order, opt_seq(filename)),
        ),
        r@ == class_name_of(*old(st), property@, level, opt_seq(value), opt_seq(selector), style_order, opt_seq(filename)),
        final(st).class_map@ == class_map_after(
            *old(st),
            property@,
            level,
            opt_seq(value),
            opt_seq(selector),
            style_order,
            opt_seq(filename),
        ),
{
    let file: Option<&str> = match style_order {
        Some(o) => if o == 0 {
            None
        } else {
            filename
        },
        None => filename,
    };
    let ghost pairs = file_pairs(st.file_map);
    let file_num: Option<usize> = match file {
        Some(f) => Some(get_file_num_by_filename(st, f)),
        None => None,
    };
    let key = build_key(st.debug, property, level, value, selector, style_order, file_num);
    proof {
        let fv = style_file(style_order, opt_seq(filename));
        assert(file_suffix(pairs, fv) == match file_num {
            Some(n) => seq!['-'] + decimal(n as nat),
            None => Seq::<char>::empty(),
        });
    }
    if st.debug {
        return string_from(&key);
    }
    let table: Vec<char> = match file {
        Some(f) => chars_of(f),
        None => Vec::new(),
    };
    assert(table@ == table_of(style_order, opt_seq(filename)));
    let n = st.class_map.number_in(&table, &key);
    let name = num_to_nm_base(n);
    match file_num {
        Some(fnum) => if table.len() > 0 {
            let mut out = num_to_nm_base(fnum);
            push_str(&mut out, "-");
            push_str(&mut out, name.as_str());
            proof {
                reveal_strlit("-");
            }
            out
        } else {
            name
        },
        None => name,
    }
}

/// The name of the CSS variable for a dynamic style: `--` and the short name
/// of the number its key (`property-level-selector`) gets among the shared
/// classes; in debug mode `--property-level-` and the selector's hash.
pub fn sheet_to_variable_name(st: &mut CssState, property: &str, level: u8, selector: Option<&str>) -> (r: String)
    requires
        old(st).wf(),
    ensures
        final(st).wf(),
        same_settings(*final(st), *old(st)),
        final(st).file_map == old(st).file_map,
        r@ == variable_name_of(old(st).debug, old(st).class_map@, property@, level, opt_seq(selector)),
        final(st).class_map@ == variable_map_after(
            old(st).debug,
            old(st).class_map@,
            property@,
            level,
            opt_seq(selector),
        ),
{
    let sel = trimmed_chars(selector);
    let mut key: Vec<char> = Vec::new();
    if st.debug {
        key.push('-');
        key.push('-');
    }
    push_chars(&mut key, property);
    key.push('-');
    push_u64(&mut key, level as u64);
    key.push('-');
    if st.debug {
        let ghost before_sel = key@;
        if sel.len() > 0 {
            let s = string_from(&sel);
            let h = hash_selector(s.as_str());
            push_u64(&mut key, h);
        }
        assert(key@ =~= before_sel + debug_selector(opt_seq(selector)));
        return string_from(&key);
    }
    push_all(&mut key, &sel);
    assert(key@ =~= property@ + seq!['-'] + decimal(level as nat) + seq!['-'] + trim(opt_text(opt_seq(selector))));
    let table: Vec<char> = Vec::new();
    let n = st.class_map.number_in(&table, &key);
    let name = num_to_nm_base(n);
    let mut out = String::new();
    push_str(&mut out, "--");
    push_str(&mut out, name.as_str());
    proof {
        reveal_strlit("--");
    }
    out
}

/// Naming keyframes `keyframes` (of file `filename`) in state `before`
/// leaves state `after` and gives name `r`: `k-` and the keyframes in debug
/// mode; otherwise the short name of the number `k-<keyframes>` gets in the
/// file's class table, after the file's number when a file is given.
pub open spec fn keyframes_named(
    before: CssState,
    after: CssState,
    keyframes: Seq<char>,
    filename: Option<Seq<char>>,
    r: Seq<char>,
) -> bool {
    let pairs = file_pairs(before.file_map);
    let f = opt_text(filename);
    if before.debug {
        &&& r == seq!['k', '-'] + keyframes
        &&& after.class_map == before.class_map
        &&& after.file_map == before.file_map
    } else {
        let key = seq!['k', '-'] + keyframes;
        let n = class_num_of(file_entries(before.class_map@, f), key);
        &&& after.class_map@ == with_class(before.class_map@, f, key, n)
        &&& if f.len() > 0 {
            &&& r == nm_name(file_num_of(pairs, f) as nat) + seq!['-'] + nm_name(n as nat)
            &&& file_pairs(after.file_map) == numbered(pairs, f)
        } else {
            &&& r == nm_name(n as nat)
            &&& after.file_map == before.file_map
        }
    }
}

/// The name of a keyframes animation: `k-` and its name in debug mode;
/// otherwise the short name of the number `k-name` gets in the file's class
/// table, after the file's number when a file is given.
pub fn keyframes_to_keyframes_name(st: &mut CssState, keyframes: &str, filename: Option<&str>) -> (r: String)
    requires
        old(st).wf(),
    ensures
        final(st).wf(),
        same_settings(*final(st), *old(st)),
        keyframes_named(*old(st), *final(st), keyframes@, opt_seq(filename), r@),
{
    let mut key: Vec<char> = Vec::new();
    key.push('k');
    key.push('-');
    push_chars(&mut key, keyframes);
    assert(key@ =~= seq!['k', '-'] + keyframes@);
    if st.debug {
        return string_from(&key);
    }
    let table: Vec<char> = match filename {
        Some(f) => chars_of(f),
        None => Vec::new(),
    };
    assert(table@ == opt_text(opt_seq(filename)));
    let n = st.class_map.number_in(&table, &key);
    let name = num_to_nm_base(n);
    if table.len() > 0 {
        let f = string_from(&table);
        let fnum = get_file_num_by_filename(st, f.as_str());
        let mut out = num_to_nm_base(fnum);
        push_str(&mut out, "-");
        push_str(&mut out, name.as_str());
        proof {
            reveal_strlit("-");
            assert(out@ =~= nm_name(fnum as nat) + seq!['-'] + nm_name(n as nat));
            assert(fnum == file_num_of(file_pairs(old(st).file_map), table@));
        }
        out
    } else {
        name
    }
}

/// Asking again for the name of the same style gives the same name and
/// changes nothing more: once style key `k` of table `f` is numbered, it
/// keeps its number and numbering it again leaves the class map as it is.
pub proof fn law_class_number_stable(m: Seq<(Seq<char>, Seq<(Seq<char>, usize)>)>, f: Seq<char>, k: Seq<char>)
    requires
        tables_wf(m),
    ensures
        ({
            let n = class_num_of(file_entries(m, f), k);
            let m2 = with_class(m, f, k, n);
            &&& class_num_of(file_entries(m2, f), k) == n
            &&& with_class(m2, f, k, n) == m2
        }),
{
    let e = file_entries(m, f);
    let n = class_num_of(e, k);
    let e2 = assoc_set(e, k, n);
    lemma_assoc_set(m, f, e2);
    let m2 = with_class(m, f, k, n);
    assert(file_entries(m2, f) == e2);
    if lookup(m, f).is_some() {
        lemma_index_of(m, f);
        let i = index_of(m, f).unwrap();
        assert(keys_distinct(m[i].1));
    }
    assert(keys_distinct(e));
    lemma_assoc_set(e, k, n);
    assert(lookup(e2, k) == Some(n));
    lemma_assoc_set_same(e2, k, n);
    lemma_assoc_set_same(m2, f, e2);
}

/// Numbering a file twice gives it the same number and leaves the file map
/// as the first numbering left it.
pub proof fn law_file_number_stable(pairs: Map<Seq<char>, usize>, f: Seq<char>)
    ensures
        file_num_of(numbered(pairs, f), f) == file_num_of(pairs, f),
        numbered(numbered(pairs, f), f) == numbered(pairs, f),
{
}

/// Numbering a key keeps the numbers of its table distinct and below the
/// table's size.
pub proof fn law_numbering_keeps_dense(t: Seq<(Seq<char>, usize)>, k: Seq<char>)
    requires
        keys_distinct(t),
        numbers_dense(t),
        t.len() < usize::MAX,
    ensures
        numbers_dense(assoc_set(t, k, class_num_of(t, k))),
{
    let n = class_num_of(t, k);
    lemma_index_of(t, k);
    match lookup(t, k) {
        Some(v) => {
            lemma_assoc_set_same(t, k, v);
        },
        None => {
            let t2 = t.push((k, n));
            assert(assoc_set(t, k, n) == t2);
            assert forall|i: int, j: int| 0 <= i < j < t2.len() implies (#[trigger] t2[i]).1 != (#[trigger] t2[j]).1 by {
                if j == t.len() {
                    assert(t2[i] == t[i]);
                    assert(t2[j].1 == t.len());
                } else {
                    assert(t2[i] == t[i] && t2[j] == t[j]);
                }
            }
            assert forall|i: int| 0 <= i < t2.len() implies (#[trigger] t2[i]).1 < t2.len() by {
                if i < t.len() {
                    assert(t2[i] == t[i]);
                }
            }
        },
    }
}

/// Two different style keys of a table whose numbers are dense get
/// different class names.
pub proof fn law_distinct_keys_distinct_names(t: Seq<(Seq<char>, usize)>, a: Seq<char>, b: Seq<char>)
    requires
        keys_distinct(t),
        numbers_dense(t),
        t.len() + 1 < usize::MAX,
        a != b,
    ensures
        nm_name(class_num_of(t, a) as nat) != nm_name(
            class_num_of(assoc_set(t, a, class_num_of(t, a)), b) as nat,
        ),
{
    let na = class_num_of(t, a);
    let t2 = assoc_set(t, a, na);
    lemma_assoc_set(t, a, na);
    law_numbering_keeps_dense(t, a);
    let nb = class_num_of(t2, b);
    lemma_index_of(t2, a);
    lemma_index_of(t2, b);
    let ia = index_of(t2, a).unwrap();
    assert(t2[ia].1 == na);
    match index_of(t2, b) {
        Some(ib) => {
            assert(t2[ib].1 == nb);
            assert(ia != ib);
        },
        None => {
            assert(nb == t2.len());
            assert(t2[ia].1 < t2.len());
        },
    }
    if nm_name(na as nat) == nm_name(nb as nat) {
        lemma_nm_name_injective(na as nat, nb as nat);
    }
}

} // verus!
