//! File routes: for each source file, the ids of the leaf routes whose render
//! closure includes it. An atom's route count decides whether it is hoisted.
use vstd::prelude::*;
use crate::class_map::lookup;
use crate::state::CssState;
use crate::str_map::StrMap;

verus! {

broadcast use vstd::seq_lib::group_seq_properties;

/// The routes of one file (none when it has no entry).
pub open spec fn file_route_set(m: Seq<(Seq<char>, Vec<u32>)>, f: Seq<char>) -> Set<u32> {
    match lookup(m, f) {
        Some(v) => v@.to_set(),
        None => Set::empty(),
    }
}

/// The routes of all of `files`: the union of their route sets.
pub open spec fn routes_of(m: Seq<(Seq<char>, Vec<u32>)>, files: Seq<Seq<char>>) -> Set<u32>
    decreases files.len(),
{
    if files.len() == 0 {
        Set::empty()
    } else {
        routes_of(m, files.drop_last()).union(file_route_set(m, files.last()))
    }
}

/// The names of the given files.
pub open spec fn names(files: Seq<&str>) -> Seq<Seq<char>> {
    files.map_values(|f: &str| f@)
}

/// Run `f` on the file routes.
pub fn with_file_routes<R, F: FnOnce(&StrMap<Vec<u32>>) -> R>(st: &CssState, f: F) -> (r: R)
    requires
        f.requires((&st.file_routes,)),
    ensures
        f.ensures((&st.file_routes,), r),
{
    f(&st.file_routes)
}

/// Run `f` on the file routes, letting it change them: `f` takes the
/// routes and hands back the routes to keep together with its result.
pub fn with_file_routes_mut<R, F: FnOnce(StrMap<Vec<u32>>) -> (StrMap<Vec<u32>>, R)>(st: &mut CssState, f: F) -> (r: R)
    requires
        f.requires((old(st).file_routes,)),
    ensures
        f.ensures((old(st).file_routes,), (final(st).file_routes, r)),
        final(st).debug == old(st).debug,
        final(st).atom_hoist == old(st).atom_hoist,
        final(st).class_map == old(st).class_map,
        final(st).file_map == old(st).file_map,
        final(st).canonical_map == old(st).canonical_map,
        final(st).length_tokens == old(st).length_tokens,
        final(st).shadow_tokens == old(st).shadow_tokens,
{
    let mut routes = StrMap::new();
    std::mem::swap(&mut routes, &mut st.file_routes);
    let (kept, r) = f(routes);
    st.file_routes = kept;
    r
}

/// Forget every file's routes.
pub fn reset_file_routes(st: &mut CssState)
    requires
        old(st).wf(),
    ensures
        final(st).wf(),
        final(st).file_routes@ == Seq::<(Seq<char>, Vec<u32>)>::empty(),
        final(st).debug == old(st).debug,
        final(st).atom_hoist == old(st).atom_hoist,
        final(st).class_map == old(st).class_map,
        final(st).file_map == old(st).file_map,
        final(st).canonical_map == old(st).canonical_map,
        final(st).length_tokens == old(st).length_tokens,
        final(st).shadow_tokens == old(st).shadow_tokens,
{
    st.file_routes.clear();
}

/// Replace the file routes.
pub fn set_file_routes(st: &mut CssState, new_map: StrMap<Vec<u32>>)
    requires
        old(st).wf(),
        new_map.wf(),
    ensures
        final(st).wf(),
        final(st).file_routes == new_map,
        final(st).debug == old(st).debug,
        final(st).atom_hoist == old(st).atom_hoist,
        final(st).class_map == old(st).class_map,
        final(st).file_map == old(st).file_map,
        final(st).canonical_map == old(st).canonical_map,
        final(st).length_tokens == old(st).length_tokens,
        final(st).shadow_tokens == old(st).shadow_tokens,
{
    st.file_routes = new_map;
}

/// A copy of the file routes.
pub fn get_file_routes(st: &CssState) -> (r: StrMap<Vec<u32>>)
    ensures
        r@.len() == st.file_routes@.len(),
        forall|i: int|
            0 <= i < r@.len() ==> (#[trigger] r@[i]).0 == st.file_routes@[i].0 && r@[i].1@
                == st.file_routes@[i].1@,
{
    let r = st.file_routes.clone();
    proof {
        assert forall|i: int| 0 <= i < r@.len() implies (#[trigger] r@[i]).1@ == st.file_routes@[i].1@ by {
            let a = st.file_routes@[i].1;
            let b = r@[i].1;
            assert(cloned(a, b));
            if a != b {
                assert(b.len() == a.len());
                assert forall|j: int| 0 <= j < a.len() implies a@[j] == b@[j] by {
                    assert(cloned(a[j], b[j]));
                }
                assert(a@ =~= b@);
            }
        }
    }
    r
}

fn has_route(v: &Vec<u32>, x: u32) -> (r: bool)
    ensures
        r == v@.contains(x),
{
    let mut i: usize = 0;
    while i < v.len()
        invariant
            i <= v@.len(),
            forall|j: int| 0 <= j < i ==> v@[j] != x,
        decreases v@.len() - i,
    {
        if v[i] == x {
            return true;
        }
        i = i + 1;
    }
    false
}

/// The number of distinct routes across the given files (the size of the
/// union of their route sets; files without routes add none).
pub fn route_count_for_files(st: &CssState, files: &[&str]) -> (r: usize)
    ensures
        r == routes_of(st.file_routes@, names(files@)).len(),
{
    let ghost m = st.file_routes@;
    let ghost fs = names(files@);
    let mut seen: Vec<u32> = Vec::new();
    let mut i: usize = 0;
    while i < files.len()
        invariant
            i <= files@.len(),
            m == st.file_routes@,
            fs == names(files@),
            seen@.no_duplicates(),
            seen@.to_set() == routes_of(m, fs.take(i as int)),
        decreases files@.len() - i,
    {
        proof {
            assert(fs.take(i + 1).drop_last() == fs.take(i as int));
            assert(fs.take(i + 1).last() == files@[i as int]@);
        }
        match st.file_routes.get(files[i]) {
            Some(v) => {
                let mut j: usize = 0;
                while j < v.len()
                    invariant
                        i < files@.len(),
                        j <= v@.len(),
                        m == st.file_routes@,
                        fs == names(files@),
                        lookup(m, files@[i as int]@) == Some(*v),
                        seen@.no_duplicates(),
                        seen@.to_set() == routes_of(m, fs.take(i as int)).union(v@.take(j as int).to_set()),
                    decreases v@.len() - j,
                {
                    let x = v[j];
                    let ghost before = seen@;
                    proof {
                        assert(v@.take(j + 1) == v@.take(j as int).push(x));
                        v@.take(j as int).lemma_push_to_set_commute(x);
                        before.lemma_push_to_set_commute(x);
                    }
                    if !has_route(&seen, x) {
                        seen.push(x);
                    }
                    proof {
                        assert(seen@.to_set() =~= routes_of(m, fs.take(i as int)).union(v@.take(j + 1).to_set()));
                    }
                    j = j + 1;
                }
                proof {
                    assert(v@.take(j as int) == v@);
                    assert(seen@.to_set() =~= routes_of(m, fs.take(i + 1)));
                }
            },
            None => {
                proof {
                    assert(seen@.to_set() =~= routes_of(m, fs.take(i + 1)));
                }
            },
        }
        i = i + 1;
    }
    proof {
        assert(fs.take(i as int) == fs);
        seen@.unique_seq_to_set();
    }
    seen.len()
}

} // verus!
