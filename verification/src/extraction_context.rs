//! The state of one extraction run, passed explicitly so that separate runs
//! do not share numbering: the class tables, the file numbers, the prefix of
//! every generated name and the debug flag.
use vstd::prelude::*;
use bimap::BiHashMap;
use crate::class_map::{class_num_of, file_entries, lookup, with_class, ClassMap};
use crate::file_map::{
    bimap_clear, bimap_clone, bimap_get_by_left, bimap_get_by_right, bimap_insert, bimap_len,
    bimap_name, empty_file_map, file_num_of, file_pairs, injective, lemma_pair_insert_injective, numbered,
};
use crate::text::chars_of;

verus! {

/// Everything an extraction run numbers and names against.
pub struct ExtractionContext {
    /// File name to (style key to class number); the empty file name holds
    /// the global styles.
    pub class_map: ClassMap,
    /// File name to file number, one-to-one.
    pub file_map: BiHashMap<String, usize>,
    /// A prefix for every generated class name.
    pub prefix: Option<String>,
    /// Debug naming.
    pub debug: bool,
}

/// The class number of style key `key` in file `f`, if it has one.
pub open spec fn class_num_in(m: Seq<(Seq<char>, Seq<(Seq<char>, usize)>)>, f: Seq<char>, key: Seq<char>) -> Option<
    usize,
> {
    match lookup(m, f) {
        Some(t) => lookup(t, key),
        None => None,
    }
}

impl ExtractionContext {
    /// The class tables have distinct keys and the file map is one-to-one.
    pub open spec fn wf(&self) -> bool {
        self.class_map.wf() && injective(file_pairs(self.file_map))
    }

    /// An empty context: no classes, no files, no prefix, not debugging.
    pub fn new() -> (r: Self)
        ensures
            r.wf(),
            r.class_map@.len() == 0,
            file_pairs(r.file_map).dom().len() == 0,
            r.prefix.is_none(),
            !r.debug,
    {
        ExtractionContext { class_map: ClassMap::new(), file_map: empty_file_map(), prefix: None, debug: false }
    }

    /// An empty context whose names carry `prefix`.
    pub fn with_prefix(prefix: Option<String>) -> (r: Self)
        ensures
            r.wf(),
            r.class_map@.len() == 0,
            file_pairs(r.file_map).dom().len() == 0,
            r.prefix == prefix,
            !r.debug,
    {
        ExtractionContext { class_map: ClassMap::new(), file_map: empty_file_map(), prefix, debug: false }
    }

    /// Replace the prefix.
    pub fn set_prefix(&mut self, prefix: Option<String>)
        ensures
            final(self).prefix == prefix,
            final(self).class_map == old(self).class_map,
            final(self).file_map == old(self).file_map,
            final(self).debug == old(self).debug,
    {
        self.prefix = prefix;
    }

    /// The prefix, if any.
    pub fn get_prefix(&self) -> (r: Option<&str>)
        ensures
            match self.prefix {
                Some(p) => r is Some && r->0@ == p@,
                None => r is None,
            },
    {
        match &self.prefix {
            Some(p) => Some(p.as_str()),
            None => None,
        }
    }

    /// Turn debug naming on or off.
    pub fn set_debug(&mut self, debug: bool)
        ensures
            final(self).debug == debug,
            final(self).class_map == old(self).class_map,
            final(self).file_map == old(self).file_map,
            final(self).prefix == old(self).prefix,
    {
        self.debug = debug;
    }

    /// Whether names are generated for debugging.
    pub fn is_debug(&self) -> (r: bool)
        ensures
            r == self.debug,
    {
        self.debug
    }

    /// Forget every class number.
    pub fn reset_class_map(&mut self)
        requires
            old(self).wf(),
        ensures
            final(self).wf(),
            final(self).class_map@.len() == 0,
            final(self).file_map == old(self).file_map,
            final(self).prefix == old(self).prefix,
            final(self).debug == old(self).debug,
    {
        self.class_map.clear();
    }

    /// Forget every file number.
    pub fn reset_file_map(&mut self)
        requires
            old(self).wf(),
        ensures
            final(self).wf(),
            file_pairs(final(self).file_map).dom().len() == 0,
            final(self).class_map == old(self).class_map,
            final(self).prefix == old(self).prefix,
            final(self).debug == old(self).debug,
    {
        bimap_clear(&mut self.file_map);
        assert(file_pairs(self.file_map).dom() =~= Set::<Seq<char>>::empty());
    }

    /// Forget every class and file number.
    pub fn reset(&mut self)
        requires
            old(self).wf(),
        ensures
            final(self).wf(),
            final(self).class_map@.len() == 0,
            file_pairs(final(self).file_map).dom().len() == 0,
            final(self).prefix == old(self).prefix,
            final(self).debug == old(self).debug,
    {
        self.class_map.clear();
        bimap_clear(&mut self.file_map);
        assert(file_pairs(self.file_map).dom() =~= Set::<Seq<char>>::empty());
    }

    /// The number of a file, numbering it (with the count of numbered files)
    /// when it has none.
    pub fn get_file_num(&mut self, filename: &str) -> (r: usize)
        requires
            old(self).wf(),
        ensures
            final(self).wf(),
            r == file_num_of(file_pairs(old(self).file_map), filename@),
            file_pairs(final(self).file_map) == numbered(file_pairs(old(self).file_map), filename@),
            final(self).class_map == old(self).class_map,
            final(self).prefix == old(self).prefix,
            final(self).debug == old(self).debug,
    {
        let len = bimap_len(&self.file_map);
        match bimap_get_by_left(&self.file_map, filename) {
            Some(n) => n,
            None => {
                proof {
                    lemma_pair_insert_injective(file_pairs(self.file_map), filename@, len);
                }
                bimap_insert(&mut self.file_map, filename, len);
                len
            },
        }
    }

    /// The name of the file numbered `file_num`, if any.
    pub fn get_filename(&self, file_num: usize) -> (r: Option<&str>)
        ensures
            match r {
                Some(s) => file_pairs(self.file_map).contains_key(s@) && file_pairs(self.file_map)[s@]
                    == file_num && (self.wf() ==> bimap_name(file_pairs(self.file_map), file_num) == Some(
                    s@,
                )),
                None => bimap_name(file_pairs(self.file_map), file_num).is_none(),
            },
    {
        let r = bimap_get_by_right(&self.file_map, file_num);
        proof {
            if let Some(s) = r {
                let m = file_pairs(self.file_map);
                assert(m.contains_key(s@) && m[s@] == file_num);
            }
        }
        r
    }

    /// Replace the class tables.
    pub fn set_class_map(&mut self, map: ClassMap)
        requires
            old(self).wf(),
            map.wf(),
        ensures
            final(self).wf(),
            final(self).class_map == map,
            final(self).file_map == old(self).file_map,
            final(self).prefix == old(self).prefix,
            final(self).debug == old(self).debug,
    {
        self.class_map = map;
    }

    /// A copy of the class tables.
    pub fn get_class_map(&self) -> (r: ClassMap)
        ensures
            r@ == self.class_map@,
    {
        self.class_map.clone()
    }

    /// Replace the file map.
    pub fn set_file_map(&mut self, map: BiHashMap<String, usize>)
        requires
            old(self).wf(),
            injective(file_pairs(map)),
        ensures
            final(self).wf(),
            final(self).file_map == map,
            final(self).class_map == old(self).class_map,
            final(self).prefix == old(self).prefix,
            final(self).debug == old(self).debug,
    {
        self.file_map = map;
    }

    /// A copy of the file map.
    pub fn get_file_map(&self) -> (r: BiHashMap<String, usize>)
        ensures
            file_pairs(r) == file_pairs(self.file_map),
    {
        bimap_clone(&self.file_map)
    }

    /// The class number of `style_key` in `filename`'s table, giving it the
    /// next number (the table's size) when it has none.
    pub fn get_or_create_class_num(&mut self, filename: &str, style_key: &str) -> (r: usize)
        requires
            old(self).wf(),
        ensures
            final(self).wf(),
            r == class_num_of(file_entries(old(self).class_map@, filename@), style_key@),
            final(self).class_map@ == with_class(old(self).class_map@, filename@, style_key@, r),
            final(self).file_map == old(self).file_map,
            final(self).prefix == old(self).prefix,
            final(self).debug == old(self).debug,
    {
        let f = chars_of(filename);
        let k = chars_of(style_key);
        self.class_map.number_in(&f, &k)
    }

    /// The class number of `style_key` in `filename`'s table, without giving
    /// it one.
    pub fn get_class_num(&self, filename: &str, style_key: &str) -> (r: Option<usize>)
        ensures
            r == class_num_in(self.class_map@, filename@, style_key@),
    {
        match self.class_map.get(filename) {
            Some(t) => t.get(style_key),
            None => None,
        }
    }
}

/// A class number, once given, is what the table answers for that key, and
/// asking again gives the same number without changing the table.
pub proof fn law_class_num_created_then_found(
    m: Seq<(Seq<char>, Seq<(Seq<char>, usize)>)>,
    f: Seq<char>,
    key: Seq<char>,
)
    requires
        crate::class_map::tables_wf(m),
    ensures
        class_num_in(with_class(m, f, key, class_num_of(file_entries(m, f), key)), f, key) == Some(
            class_num_of(file_entries(m, f), key),
        ),
        with_class(
            with_class(m, f, key, class_num_of(file_entries(m, f), key)),
            f,
            key,
            class_num_of(
                file_entries(with_class(m, f, key, class_num_of(file_entries(m, f), key)), f),
                key,
            ),
        ) == with_class(m, f, key, class_num_of(file_entries(m, f), key)),
{
    let n = class_num_of(file_entries(m, f), key);
    let t = file_entries(m, f);
    crate::class_map::lemma_index_of(m, f);
    crate::class_map::lemma_assoc_set(t, key, n);
    let t2 = crate::class_map::assoc_set(t, key, n);
    crate::class_map::lemma_assoc_set(m, f, t2);
    let m2 = with_class(m, f, key, n);
    assert(file_entries(m2, f) == t2);
    assert(class_num_of(t2, key) == n);
    crate::class_map::lemma_assoc_set_same(t2, key, n);
    crate::class_map::lemma_assoc_set_same(m2, f, t2);
}

} // verus!
