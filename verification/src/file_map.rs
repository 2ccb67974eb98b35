//! File numbering: a one-to-one map between file names and the numbers that
//! prefix their class names, kept in a `bimap::BiHashMap`; and the canonical
//! map that sends a file to the bucket whose styles it shares.
use vstd::prelude::*;
use bimap::BiHashMap;
use std::collections::hash_map::RandomState;
use crate::class_map::lookup;
use crate::state::CssState;
use crate::str_map::StrMap;

verus! {

#[verifier::external_type_specification]
#[verifier::external_body]
#[verifier::reject_recursive_types(L)]
#[verifier::reject_recursive_types(R)]
#[verifier::reject_recursive_types(LS)]
#[verifier::reject_recursive_types(RS)]
pub struct ExBiHashMap<L, R, LS, RS>(BiHashMap<L, R, LS, RS>);

/// The pairs a file map holds, each file name with its number.
pub uninterp spec fn file_pairs(m: BiHashMap<String, usize, RandomState, RandomState>) -> Map<Seq<char>, usize>;

/// No two files share a number.
pub open spec fn injective(m: Map<Seq<char>, usize>) -> bool {
    forall|a: Seq<char>, b: Seq<char>|
        #![trigger m.contains_key(a), m.contains_key(b)]
        m.contains_key(a) && m.contains_key(b) && m[a] == m[b] ==> a == b
}

/// The pairs after inserting `(l, r)` into a bimap: every pair with left
/// value `l` or right value `r` is dropped, then `(l, r)` is added.
pub open spec fn pair_insert(m: Map<Seq<char>, usize>, l: Seq<char>, r: usize) -> Map<Seq<char>, usize> {
    Map::new(
        |k: Seq<char>| k == l || (m.contains_key(k) && m[k] != r),
        |k: Seq<char>| if k == l { r } else { m[k] },
    )
}

/// The pairs of an empty file map.
pub open spec fn no_pairs() -> Map<Seq<char>, usize> {
    Map::empty()
}

/// `BiHashMap::new`: an empty bimap.
#[verifier::external_body]
pub(crate) fn bimap_new() -> (r: BiHashMap<String, usize>)
    ensures
        file_pairs(r) == no_pairs(),
{
    BiHashMap::new()
}

/// `BiHashMap::get_by_left`: the number paired with `name`.
#[verifier::external_body]
pub(crate) fn bimap_get_by_left(m: &BiHashMap<String, usize>, name: &str) -> (r: Option<usize>)
    ensures
        r == (if file_pairs(*m).contains_key(name@) {
            Some(file_pairs(*m)[name@])
        } else {
            None::<usize>
        }),
{
    m.get_by_left(name).copied()
}

/// `BiHashMap::get_by_right`: the name paired with number `n`.
#[verifier::external_body]
pub(crate) fn bimap_get_by_right(m: &BiHashMap<String, usize>, n: usize) -> (r: Option<&str>)
    ensures
        match r {
            Some(s) => file_pairs(*m).contains_key(s@) && file_pairs(*m)[s@] == n,
            None => forall|k: Seq<char>| #[trigger] file_pairs(*m).contains_key(k) ==> file_pairs(*m)[k] != n,
        },
{
    m.get_by_right(&n).map(String::as_str)
}

/// `BiHashMap::len`: the number of pairs.
#[verifier::external_body]
pub(crate) fn bimap_len(m: &BiHashMap<String, usize>) -> (r: usize)
    ensures
        r == file_pairs(*m).len(),
{
    m.len()
}

/// `BiHashMap::insert`: pair `name` with `n`, dropping the pairs that held
/// either of them.
#[verifier::external_body]
pub(crate) fn bimap_insert(m: &mut BiHashMap<String, usize>, name: &str, n: usize)
    ensures
        file_pairs(*final(m)) == pair_insert(file_pairs(*old(m)), name@, n),
{
    m.insert(name.to_string(), n);
}

/// `BiHashMap::clear`: remove every pair.
#[verifier::external_body]
pub(crate) fn bimap_clear(m: &mut BiHashMap<String, usize>)
    ensures
        file_pairs(*final(m)) == no_pairs(),
{
    m.clear();
}

/// `BiHashMap::clone`: a bimap with the same pairs.
#[verifier::external_body]
pub(crate) fn bimap_clone(m: &BiHashMap<String, usize>) -> (r: BiHashMap<String, usize>)
    ensures
        file_pairs(r) == file_pairs(*m),
{
    m.clone()
}

/// An empty file map.
pub fn empty_file_map() -> (r: BiHashMap<String, usize>)
    ensures
        file_pairs(r) == Map::<Seq<char>, usize>::empty(),
        injective(file_pairs(r)),
{
    bimap_new()
}

/// The number a file gets: its own, or the count of numbered files.
pub open spec fn file_num_of(m: Map<Seq<char>, usize>, f: Seq<char>) -> usize {
    if m.contains_key(f) {
        m[f]
    } else {
        m.len() as usize
    }
}

/// The file map once `f` has a number.
pub open spec fn numbered(m: Map<Seq<char>, usize>, f: Seq<char>) -> Map<Seq<char>, usize> {
    if m.contains_key(f) {
        m
    } else {
        pair_insert(m, f, m.len() as usize)
    }
}

/// Inserting a pair into a bimap keeps it one-to-one.
pub proof fn lemma_pair_insert_injective(m: Map<Seq<char>, usize>, l: Seq<char>, r: usize)
    requires
        injective(m),
    ensures
        injective(pair_insert(m, l, r)),
{
}

/// Numbering a file and then asking for the file of that number gives the
/// file back: after `f` is numbered, `f` is the only file with its number.
pub proof fn law_file_number_names_file(m: Map<Seq<char>, usize>, f: Seq<char>, g: Seq<char>)
    requires
        injective(m),
        numbered(m, f).contains_key(g),
        numbered(m, f)[g] == file_num_of(m, f),
    ensures
        numbered(m, f).contains_key(f),
        numbered(m, f)[f] == file_num_of(m, f),
        g == f,
{
}

/// The numbers of a file map are exactly `0..` its size: it is finite, one
/// to one, and every number is below its size.
pub open spec fn dense(m: Map<Seq<char>, usize>) -> bool {
    &&& m.dom().finite()
    &&& injective(m)
    &&& forall|k: Seq<char>| #[trigger] m.contains_key(k) ==> (m[k] as int) < m.len()
}

/// Numbering files keeps the numbers dense: a file already numbered keeps
/// its number and the map is unchanged; a new file gets the map's size as
/// its number, so the numbers stay exactly `0..` the size and no two files
/// share one.
pub proof fn law_file_numbers_stay_dense(m: Map<Seq<char>, usize>, f: Seq<char>)
    requires
        dense(m),
        m.len() < usize::MAX,
    ensures
        dense(numbered(m, f)),
        m.contains_key(f) ==> numbered(m, f) == m && file_num_of(m, f) == m[f],
        !m.contains_key(f) ==> file_num_of(m, f) == m.len() && numbered(m, f) == m.insert(f, m.len() as usize),
{
    if !m.contains_key(f) {
        let n = m.len() as usize;
        assert forall|k: Seq<char>| #[trigger] m.contains_key(k) implies m[k] != n by {}
        assert(pair_insert(m, f, n) =~= m.insert(f, n));
        lemma_pair_insert_injective(m, f, n);
        let m2 = m.insert(f, n);
        assert(m2.len() == m.len() + 1);
        assert forall|k: Seq<char>| #[trigger] m2.contains_key(k) implies (m2[k] as int) < m2.len() by {
            if k != f {
                assert(m.contains_key(k));
            }
        }
    }
}

/// The view of a list of (file name, number) pairs.
pub open spec fn pairs_view(p: Seq<(String, usize)>) -> Seq<(Seq<char>, usize)> {
    p.map_values(|x: (String, usize)| (x.0@, x.1))
}

/// No two pairs share a file name or a number.
pub open spec fn pairs_distinct(p: Seq<(Seq<char>, usize)>) -> bool {
    forall|i: int, j: int| 0 <= i < j < p.len() ==> (#[trigger] p[i]).0 != (#[trigger] p[j]).0 && p[i].1 != p[j].1
}

/// A file map holding exactly the given pairs: `None` when two of them share
/// a file name or a number.
pub fn file_map_from_pairs(pairs: &Vec<(String, usize)>) -> (r: Option<BiHashMap<String, usize>>)
    ensures
        r is Some <==> pairs_distinct(pairs_view(pairs@)),
        r matches Some(m) ==> {
            &&& injective(file_pairs(m))
            &&& forall|k: Seq<char>|
                #![trigger file_pairs(m).contains_key(k)]
                file_pairs(m).contains_key(k) <==> exists|j: int|
                    0 <= j < pairs@.len() && (#[trigger] pairs_view(pairs@)[j]).0 == k
            &&& forall|j: int|
                0 <= j < pairs@.len() ==> file_pairs(m)[(#[trigger] pairs_view(pairs@)[j]).0] == pairs_view(
                    pairs@,
                )[j].1
        },
{
    let ghost pv = pairs_view(pairs@);
    let mut m = bimap_new();
    let mut i: usize = 0;
    while i < pairs.len()
        invariant
            i <= pairs@.len(),
            pv == pairs_view(pairs@),
            pv.len() == pairs@.len(),
            injective(file_pairs(m)),
            pairs_distinct(pv.take(i as int)),
            forall|k: Seq<char>|
                #![trigger file_pairs(m).contains_key(k)]
                file_pairs(m).contains_key(k) ==> exists|j: int| 0 <= j < i && (#[trigger] pv[j]).0 == k,
            forall|j: int|
                0 <= j < i ==> file_pairs(m).contains_key((#[trigger] pv[j]).0) && file_pairs(m)[pv[j].0]
                    == pv[j].1,
        decreases pairs@.len() - i,
    {
        let name = pairs[i].0.as_str();
        let n = pairs[i].1;
        assert(pv[i as int] == (name@, n));
        match bimap_get_by_left(&m, name) {
            Some(_) => {
                proof {
                    let j = choose|j: int| 0 <= j < i && (#[trigger] pv[j]).0 == name@;
                    assert(pv[j].0 == pv[i as int].0);
                }
                return None;
            },
            None => {},
        }
        match bimap_get_by_right(&m, n) {
            Some(s) => {
                proof {
                    let j = choose|j: int| 0 <= j < i && (#[trigger] pv[j]).0 == s@;
                    assert(file_pairs(m)[pv[j].0] == pv[j].1);
                    assert(pv[j].1 == pv[i as int].1);
                }
                return None;
            },
            None => {},
        }
        let ghost old_pairs = file_pairs(m);
        proof {
            lemma_pair_insert_injective(old_pairs, name@, n);
            assert(pair_insert(old_pairs, name@, n) =~= old_pairs.insert(name@, n));
        }
        bimap_insert(&mut m, name, n);
        proof {
            let t = pv.take(i + 1);
            assert forall|a: int, b: int| 0 <= a < b < t.len() implies (#[trigger] t[a]).0 != (#[trigger] t[b]).0
                && t[a].1 != t[b].1 by {
                if b == i {
                    assert(t[a] == pv[a]);
                    assert(old_pairs.contains_key(pv[a].0));
                } else {
                    assert(t[a] == pv.take(i as int)[a] && t[b] == pv.take(i as int)[b]);
                }
            }
            assert forall|k: Seq<char>| #[trigger] file_pairs(m).contains_key(k) implies exists|j: int|
                0 <= j < i + 1 && (#[trigger] pv[j]).0 == k by {
                if k != name@ {
                    assert(old_pairs.contains_key(k));
                } else {
                    assert(pv[i as int].0 == k);
                }
            }
            assert forall|j: int| 0 <= j < i + 1 implies file_pairs(m).contains_key((#[trigger] pv[j]).0)
                && file_pairs(m)[pv[j].0] == pv[j].1 by {
                if j < i {
                    assert(old_pairs.contains_key(pv[j].0));
                    assert(pv[j].0 != name@);
                }
            }
        }
        i = i + 1;
    }
    assert(pv.take(i as int) == pv);
    Some(m)
}

/// The number of `filename`, numbering it when it has none yet.
pub fn get_file_num_by_filename(st: &mut CssState, filename: &str) -> (r: usize)
    requires
        old(st).wf(),
    ensures
        final(st).wf(),
        r == file_num_of(file_pairs(old(st).file_map), filename@),
        file_pairs(final(st).file_map) == numbered(file_pairs(old(st).file_map), filename@),
        final(st).debug == old(st).debug,
        final(st).atom_hoist == old(st).atom_hoist,
        final(st).class_map == old(st).class_map,
        final(st).canonical_map == old(st).canonical_map,
        final(st).file_routes == old(st).file_routes,
        final(st).length_tokens == old(st).length_tokens,
        final(st).shadow_tokens == old(st).shadow_tokens,
{
    match bimap_get_by_left(&st.file_map, filename) {
        Some(n) => n,
        None => {
            let n = bimap_len(&st.file_map);
            proof {
                lemma_pair_insert_injective(file_pairs(st.file_map), filename@, n);
            }
            bimap_insert(&mut st.file_map, filename, n);
            n
        },
    }
}

/// The name of the file numbered `file_num`, or the empty string when no
/// file has that number.
pub fn get_filename_by_file_num(st: &CssState, file_num: usize) -> (r: String)
    ensures
        match bimap_name(file_pairs(st.file_map), file_num) {
            Some(f) => file_pairs(st.file_map).contains_key(r@) && file_pairs(st.file_map)[r@] == file_num
                && (injective(file_pairs(st.file_map)) ==> r@ == f),
            None => r@ == Seq::<char>::empty(),
        },
{
    let mut r = String::new();
    if let Some(s) = bimap_get_by_right(&st.file_map, file_num) {
        crate::text::push_str(&mut r, s);
    }
    r
}

/// The file with number `n`, if any (one of them, were there several).
pub open spec fn bimap_name(m: Map<Seq<char>, usize>, n: usize) -> Option<Seq<char>> {
    if exists|k: Seq<char>| m.contains_key(k) && m[k] == n {
        Some(choose|k: Seq<char>| m.contains_key(k) && m[k] == n)
    } else {
        None
    }
}

/// Run `f` on the file map.
pub fn with_file_map<R, F: FnOnce(&BiHashMap<String, usize>) -> R>(st: &CssState, f: F) -> (r: R)
    requires
        f.requires((&st.file_map,)),
    ensures
        f.ensures((&st.file_map,), r),
{
    f(&st.file_map)
}

/// Run `f` on the file map, letting it change the map: `f` takes the map
/// and hands back the map to keep together with its result.
pub fn with_file_map_mut<R, F: FnOnce(BiHashMap<String, usize>) -> (BiHashMap<String, usize>, R)>(
    st: &mut CssState,
    f: F,
) -> (r: R)
    requires
        f.requires((old(st).file_map,)),
    ensures
        f.ensures((old(st).file_map,), (final(st).file_map, r)),
        final(st).debug == old(st).debug,
        final(st).atom_hoist == old(st).atom_hoist,
        final(st).class_map == old(st).class_map,
        final(st).canonical_map == old(st).canonical_map,
        final(st).file_routes == old(st).file_routes,
        final(st).length_tokens == old(st).length_tokens,
        final(st).shadow_tokens == old(st).shadow_tokens,
{
    let mut map = empty_file_map();
    std::mem::swap(&mut map, &mut st.file_map);
    let (kept, r) = f(map);
    st.file_map = kept;
    r
}

/// Forget every file number.
pub fn reset_file_map(st: &mut CssState)
    requires
        old(st).wf(),
    ensures
        final(st).wf(),
        file_pairs(final(st).file_map) == Map::<Seq<char>, usize>::empty(),
        final(st).debug == old(st).debug,
        final(st).atom_hoist == old(st).atom_hoist,
        final(st).class_map == old(st).class_map,
        final(st).canonical_map == old(st).canonical_map,
        final(st).file_routes == old(st).file_routes,
        final(st).length_tokens == old(st).length_tokens,
        final(st).shadow_tokens == old(st).shadow_tokens,
{
    bimap_clear(&mut st.file_map);
}

/// Replace the file map.
pub fn set_file_map(st: &mut CssState, new_map: BiHashMap<String, usize>)
    requires
        old(st).wf(),
        injective(file_pairs(new_map)),
    ensures
        final(st).wf(),
        final(st).file_map == new_map,
        final(st).debug == old(st).debug,
        final(st).atom_hoist == old(st).atom_hoist,
        final(st).class_map == old(st).class_map,
        final(st).canonical_map == old(st).canonical_map,
        final(st).file_routes == old(st).file_routes,
        final(st).length_tokens == old(st).length_tokens,
        final(st).shadow_tokens == old(st).shadow_tokens,
{
    st.file_map = new_map;
}

/// A copy of the file map.
pub fn get_file_map(st: &CssState) -> (r: BiHashMap<String, usize>)
    ensures
        file_pairs(r) == file_pairs(st.file_map),
{
    bimap_clone(&st.file_map)
}

/// The name that marks a file for global (shared-chunk) emission in the
/// canonical map.
pub const GLOBAL_BUCKET: &'static str = "@global";

/// What `filename` resolves to: its bucket root in the canonical map, or
/// itself when it has none.
pub open spec fn canonical_of(m: Seq<(Seq<char>, String)>, f: Seq<char>) -> Seq<char> {
    match lookup(m, f) {
        Some(v) => v@,
        None => f,
    }
}

/// Run `f` on the canonical map.
pub fn with_canonical_map<R, F: FnOnce(&StrMap<String>) -> R>(st: &CssState, f: F) -> (r: R)
    requires
        f.requires((&st.canonical_map,)),
    ensures
        f.ensures((&st.canonical_map,), r),
{
    f(&st.canonical_map)
}

/// Run `f` on the canonical map, letting it change the map: `f` takes the
/// map and hands back the map to keep together with its result.
pub fn with_canonical_map_mut<R, F: FnOnce(StrMap<String>) -> (StrMap<String>, R)>(st: &mut CssState, f: F) -> (r: R)
    requires
        f.requires((old(st).canonical_map,)),
    ensures
        f.ensures((old(st).canonical_map,), (final(st).canonical_map, r)),
        final(st).debug == old(st).debug,
        final(st).atom_hoist == old(st).atom_hoist,
        final(st).class_map == old(st).class_map,
        final(st).file_map == old(st).file_map,
        final(st).file_routes == old(st).file_routes,
        final(st).length_tokens == old(st).length_tokens,
        final(st).shadow_tokens == old(st).shadow_tokens,
{
    let mut map = StrMap::new();
    std::mem::swap(&mut map, &mut st.canonical_map);
    let (kept, r) = f(map);
    st.canonical_map = kept;
    r
}

/// Empty the canonical map.
pub fn reset_canonical_map(st: &mut CssState)
    requires
        old(st).wf(),
    ensures
        final(st).wf(),
        final(st).canonical_map@ == Seq::<(Seq<char>, String)>::empty(),
        final(st).debug == old(st).debug,
        final(st).atom_hoist == old(st).atom_hoist,
        final(st).class_map == old(st).class_map,
        final(st).file_map == old(st).file_map,
        final(st).file_routes == old(st).file_routes,
        final(st).length_tokens == old(st).length_tokens,
        final(st).shadow_tokens == old(st).shadow_tokens,
{
    st.canonical_map.clear();
}

/// Replace the canonical map.
pub fn set_canonical_map(st: &mut CssState, new_map: StrMap<String>)
    requires
        old(st).wf(),
        new_map.wf(),
    ensures
        final(st).wf(),
        final(st).canonical_map == new_map,
        final(st).debug == old(st).debug,
        final(st).atom_hoist == old(st).atom_hoist,
        final(st).class_map == old(st).class_map,
        final(st).file_map == old(st).file_map,
        final(st).file_routes == old(st).file_routes,
        final(st).length_tokens == old(st).length_tokens,
        final(st).shadow_tokens == old(st).shadow_tokens,
{
    st.canonical_map = new_map;
}

/// A copy of the canonical map.
pub fn get_canonical_map(st: &CssState) -> (r: StrMap<String>)
    requires
        st.wf(),
    ensures
        r.wf(),
        r@.len() == st.canonical_map@.len(),
        forall|i: int| 0 <= i < r@.len() ==> (#[trigger] r@[i]).0 == st.canonical_map@[i].0 && r@[i].1@ == st.canonical_map@[i].1@,
{
    let r = st.canonical_map.clone();
    proof {
        assert forall|i: int| 0 <= i < r@.len() implies (#[trigger] r@[i]).1@ == st.canonical_map@[i].1@ by {
            assert(cloned(st.canonical_map@[i].1, r@[i].1));
        }
    }
    r
}

/// Resolve a filename to its bucket root, or to itself when it has none.
pub fn canonical(st: &CssState, filename: &str) -> (r: String)
    ensures
        r@ == canonical_of(st.canonical_map@, filename@),
{
    match st.canonical_map.get(filename) {
        Some(v) => v.clone(),
        None => filename.to_string(),
    }
}

/// Whether a file is marked for global (shared-chunk) emission.
pub fn is_global(st: &CssState, filename: &str) -> (r: bool)
    ensures
        r == (match lookup(st.canonical_map@, filename@) {
            Some(v) => v@ == GLOBAL_BUCKET@,
            None => false,
        }),
{
    match st.canonical_map.get(filename) {
        Some(v) => crate::text::str_eq(v.as_str(), GLOBAL_BUCKET),
        None => false,
    }
}

} // verus!
