//! The class map: for each file (the empty name for shared styles), the
//! numbers given to its style keys. A style key's class name is the short
//! name of its number.
use vstd::prelude::*;
use crate::state::CssState;
use crate::text::{chars_eq, chars_of};

verus! {

/// The value stored under key `k` in an association list (the last match).
pub open spec fn lookup<V>(s: Seq<(Seq<char>, V)>, k: Seq<char>) -> Option<V>
    decreases s.len(),
{
    if s.len() == 0 {
        None
    } else if s.last().0 == k {
        Some(s.last().1)
    } else {
        lookup(s.drop_last(), k)
    }
}

/// The position of key `k` in an association list (the last match).
pub open spec fn index_of<V>(s: Seq<(Seq<char>, V)>, k: Seq<char>) -> Option<int>
    decreases s.len(),
{
    if s.len() == 0 {
        None
    } else if s.last().0 == k {
        Some(s.len() - 1)
    } else {
        index_of(s.drop_last(), k)
    }
}

/// No key occurs twice.
pub open spec fn keys_distinct<V>(s: Seq<(Seq<char>, V)>) -> bool {
    forall|i: int, j: int| 0 <= i < j < s.len() ==> (#[trigger] s[i]).0 != (#[trigger] s[j]).0
}

/// The list with key `k` mapped to `v`: replaced in place when present,
/// appended otherwise.
pub open spec fn assoc_set<V>(s: Seq<(Seq<char>, V)>, k: Seq<char>, v: V) -> Seq<(Seq<char>, V)> {
    match index_of(s, k) {
        Some(i) => s.update(i, (k, v)),
        None => s.push((k, v)),
    }
}

pub proof fn lemma_index_of<V>(s: Seq<(Seq<char>, V)>, k: Seq<char>)
    ensures
        match index_of(s, k) {
            Some(i) => 0 <= i < s.len() && s[i].0 == k && lookup(s, k) == Some(s[i].1) && forall|
                j: int,
            | i < j < s.len() ==> s[j].0 != k,
            None => lookup(s, k).is_none() && forall|j: int| 0 <= j < s.len() ==> s[j].0 != k,
        },
    decreases s.len(),
{
    if s.len() > 0 {
        let t = s.drop_last();
        lemma_index_of(t, k);
        assert forall|j: int| 0 <= j < t.len() implies t[j] == s[j] by {}
    }
}

proof fn lemma_index_at<V>(s: Seq<(Seq<char>, V)>, k: Seq<char>, i: int)
    requires
        0 <= i < s.len(),
        s[i].0 == k,
        forall|j: int| i < j < s.len() ==> s[j].0 != k,
    ensures
        index_of(s, k) == Some(i),
    decreases s.len(),
{
    if i < s.len() - 1 {
        let t = s.drop_last();
        assert forall|j: int| i < j < t.len() implies t[j].0 != k by {
            assert(t[j] == s[j]);
        }
        lemma_index_at(t, k, i);
    }
}

pub proof fn lemma_assoc_set<V>(s: Seq<(Seq<char>, V)>, k: Seq<char>, v: V)
    requires
        keys_distinct(s),
    ensures
        keys_distinct(assoc_set(s, k, v)),
        lookup(assoc_set(s, k, v), k) == Some(v),
        forall|k2: Seq<char>| k2 != k ==> lookup(assoc_set(s, k, v), k2) == lookup(s, k2),
        lookup(s, k).is_some() ==> assoc_set(s, k, v).len() == s.len(),
        lookup(s, k).is_none() ==> assoc_set(s, k, v).len() == s.len() + 1,
{
    lemma_index_of(s, k);
    let t = assoc_set(s, k, v);
    match index_of(s, k) {
        Some(i) => {
            lemma_index_at(t, k, i);
        },
        None => {
            lemma_index_at(t, k, s.len() as int);
        },
    }
    lemma_index_of(t, k);
    assert forall|k2: Seq<char>| k2 != k implies lookup(t, k2) == lookup(s, k2) by {
        lemma_index_of(s, k2);
        lemma_index_of(t, k2);
        match index_of(s, k2) {
            Some(i) => {
                assert(t[i] == s[i]);
            },
            None => {},
        }
        match index_of(t, k2) {
            Some(i) => {
                assert(t[i].0 == k2);
                if i < s.len() {
                    assert(s[i] == t[i]);
                }
            },
            None => {},
        }
    }
}

/// Setting a key to the value it already has changes nothing.
pub proof fn lemma_assoc_set_same<V>(s: Seq<(Seq<char>, V)>, k: Seq<char>, v: V)
    requires
        lookup(s, k) == Some(v),
    ensures
        assoc_set(s, k, v) == s,
{
    lemma_index_of(s, k);
    let i = index_of(s, k).unwrap();
    assert(s[i] == (k, v));
    assert(s.update(i, (k, v)) =~= s);
}

/// Class numbers in a table are distinct and below the table's size, as
/// numbering keys one by one keeps them.
pub open spec fn numbers_dense(t: Seq<(Seq<char>, usize)>) -> bool {
    &&& forall|i: int| 0 <= i < t.len() ==> (#[trigger] t[i]).1 < t.len()
    &&& forall|i: int, j: int| 0 <= i < j < t.len() ==> (#[trigger] t[i]).1 != (#[trigger] t[j]).1
}

/// The class numbers of one file, keyed by style key.
#[derive(Debug, PartialEq, Eq)]
pub struct FileClasses {
    entries: Vec<(Vec<char>, usize)>,
}

pub open spec fn pair_views(s: Seq<(Vec<char>, usize)>) -> Seq<(Seq<char>, usize)> {
    s.map_values(|p: (Vec<char>, usize)| (p.0@, p.1))
}

impl View for FileClasses {
    type V = Seq<(Seq<char>, usize)>;

    closed spec fn view(&self) -> Seq<(Seq<char>, usize)> {
        pair_views(self.entries@)
    }
}

impl FileClasses {
    pub open spec fn wf(&self) -> bool {
        keys_distinct(self@)
    }

    /// An empty table.
    pub fn new() -> (r: FileClasses)
        ensures
            r@ == Seq::<(Seq<char>, usize)>::empty(),
            r.wf(),
    {
        let r = FileClasses { entries: Vec::new() };
        assert(r@ == Seq::<(Seq<char>, usize)>::empty());
        r
    }

    /// The number of style keys.
    pub fn len(&self) -> (r: usize)
        ensures
            r == self@.len(),
    {
        self.entries.len()
    }

    pub fn is_empty(&self) -> (r: bool)
        ensures
            r == (self@.len() == 0),
    {
        self.entries.len() == 0
    }

    fn find(&self, key: &[char]) -> (r: Option<usize>)
        ensures
            match r {
                Some(i) => index_of(self@, key@) == Some(i as int),
                None => index_of(self@, key@).is_none(),
            },
    {
        proof {
            lemma_index_of(self@, key@);
        }
        let mut i = self.entries.len();
        assert(self@.take(i as int) == self@);
        while i > 0
            invariant
                i <= self.entries@.len(),
                self@ == pair_views(self.entries@),
                index_of(self@, key@) == index_of(self@.take(i as int), key@),
            decreases i,
        {
            let ghost t = self@.take(i as int);
            assert(t.drop_last() == self@.take(i - 1));
            assert(t.last() == self@[i - 1]);
            if chars_eq(&self.entries[i - 1].0, key) {
                return Some(i - 1);
            }
            i = i - 1;
        }
        None
    }

    /// The number of style key `key`, if it has one.
    pub fn get(&self, key: &str) -> (r: Option<usize>)
        ensures
            r == lookup(self@, key@),
    {
        proof {
            lemma_index_of(self@, key@);
        }
        let k = chars_of(key);
        match self.find(&k) {
            Some(i) => Some(self.entries[i].1),
            None => None,
        }
    }

    /// Give `key` the number `n`, replacing its old number if it had one.
    pub fn insert(&mut self, key: &str, n: usize)
        requires
            old(self).wf(),
        ensures
            final(self).wf(),
            final(self)@ == assoc_set(old(self)@, key@, n),
    {
        let k = chars_of(key);
        self.set_num(&k, n);
    }

    fn set_num(&mut self, key: &[char], n: usize)
        requires
            old(self).wf(),
        ensures
            final(self).wf(),
            final(self)@ == assoc_set(old(self)@, key@, n),
    {
        proof {
            lemma_assoc_set(self@, key@, n);
            lemma_index_of(self@, key@);
        }
        let mut kv: Vec<char> = Vec::new();
        crate::text::push_all(&mut kv, key);
        match self.find(key) {
            Some(i) => {
                self.entries.set(i, (kv, n));
                assert(pair_views(self.entries@) =~= old(self)@.update(i as int, (key@, n)));
            },
            None => {
                self.entries.push((kv, n));
                assert(pair_views(self.entries@) =~= old(self)@.push((key@, n)));
            },
        }
    }

    /// The number of `key`, giving it the next number (the table's size)
    /// when it has none.
    pub fn number_of(&mut self, key: &[char]) -> (r: usize)
        requires
            old(self).wf(),
        ensures
            final(self).wf(),
            r == class_num_of(old(self)@, key@),
            final(self)@ == assoc_set(old(self)@, key@, r),
    {
        proof {
            lemma_index_of(self@, key@);
        }
        match self.find(key) {
            Some(i) => {
                let n = self.entries[i].1;
                proof {
                    lemma_assoc_set(self@, key@, n);
                    assert(self@.update(i as int, (key@, n)) == self@);
                }
                n
            },
            None => {
                let n = self.entries.len();
                self.set_num(key, n);
                n
            },
        }
    }
}

/// The number a style key gets in a file's table: its own number, or the
/// table's size when it has none yet.
pub open spec fn class_num_of(entries: Seq<(Seq<char>, usize)>, key: Seq<char>) -> usize {
    match lookup(entries, key) {
        Some(n) => n,
        None => entries.len() as usize,
    }
}

/// The class tables of all files, keyed by file name.
#[derive(Debug, PartialEq, Eq)]
pub struct ClassMap {
    files: Vec<(Vec<char>, FileClasses)>,
}

pub open spec fn file_views(s: Seq<(Vec<char>, FileClasses)>) -> Seq<(Seq<char>, Seq<(Seq<char>, usize)>)> {
    s.map_values(|p: (Vec<char>, FileClasses)| (p.0@, p.1@))
}

impl View for ClassMap {
    type V = Seq<(Seq<char>, Seq<(Seq<char>, usize)>)>;

    closed spec fn view(&self) -> Seq<(Seq<char>, Seq<(Seq<char>, usize)>)> {
        file_views(self.files@)
    }
}

/// The class table of file `f` (empty when the file has none).
pub open spec fn file_entries(
    m: Seq<(Seq<char>, Seq<(Seq<char>, usize)>)>,
    f: Seq<char>,
) -> Seq<(Seq<char>, usize)> {
    match lookup(m, f) {
        Some(e) => e,
        None => seq![],
    }
}

/// The class map once style key `k` of file `f` has its number `n`.
pub open spec fn with_class(
    m: Seq<(Seq<char>, Seq<(Seq<char>, usize)>)>,
    f: Seq<char>,
    k: Seq<char>,
    n: usize,
) -> Seq<(Seq<char>, Seq<(Seq<char>, usize)>)> {
    assoc_set(m, f, assoc_set(file_entries(m, f), k, n))
}

/// Every file's table has distinct keys.
pub open spec fn tables_wf(m: Seq<(Seq<char>, Seq<(Seq<char>, usize)>)>) -> bool {
    keys_distinct(m) && forall|i: int| 0 <= i < m.len() ==> keys_distinct(#[trigger] m[i].1)
}

impl ClassMap {
    pub open spec fn wf(&self) -> bool {
        tables_wf(self@)
    }

    /// An empty class map.
    pub fn new() -> (r: ClassMap)
        ensures
            r@ == Seq::<(Seq<char>, Seq<(Seq<char>, usize)>)>::empty(),
            r.wf(),
    {
        let r = ClassMap { files: Vec::new() };
        assert(r@ == Seq::<(Seq<char>, Seq<(Seq<char>, usize)>)>::empty());
        r
    }

    /// The number of files with a table.
    pub fn len(&self) -> (r: usize)
        ensures
            r == self@.len(),
    {
        self.files.len()
    }

    pub fn is_empty(&self) -> (r: bool)
        ensures
            r == (self@.len() == 0),
    {
        self.files.len() == 0
    }

    fn find(&self, f: &[char]) -> (r: Option<usize>)
        ensures
            match r {
                Some(i) => index_of(self@, f@) == Some(i as int) && i < self@.len(),
                None => index_of(self@, f@).is_none(),
            },
    {
        proof {
            lemma_index_of(self@, f@);
        }
        let mut i = self.files.len();
        assert(self@.take(i as int) == self@);
        while i > 0
            invariant
                i <= self.files@.len(),
                self@ == file_views(self.files@),
                index_of(self@, f@) == index_of(self@.take(i as int), f@),
            decreases i,
        {
            let ghost t = self@.take(i as int);
            assert(t.drop_last() == self@.take(i - 1));
            assert(t.last() == self@[i - 1]);
            if chars_eq(&self.files[i - 1].0, f) {
                return Some(i - 1);
            }
            i = i - 1;
        }
        None
    }

    /// The table of file `file`, if it has one.
    pub fn get(&self, file: &str) -> (r: Option<&FileClasses>)
        ensures
            match r {
                Some(t) => lookup(self@, file@) == Some(t@),
                None => lookup(self@, file@).is_none(),
            },
    {
        proof {
            lemma_index_of(self@, file@);
        }
        let f = chars_of(file);
        match self.find(&f) {
            Some(i) => Some(&self.files[i].1),
            None => None,
        }
    }

    /// Set the table of file `file`.
    pub fn insert(&mut self, file: &str, classes: FileClasses)
        requires
            old(self).wf(),
            classes.wf(),
        ensures
            final(self).wf(),
            final(self)@ == assoc_set(old(self)@, file@, classes@),
    {
        proof {
            lemma_index_of(self@, file@);
            lemma_assoc_set(self@, file@, classes@);
        }
        let f = chars_of(file);
        let ghost cv = classes@;
        match self.find(&f) {
            Some(i) => {
                self.files.set(i, (f, classes));
                assert(self@ =~= old(self)@.update(i as int, (file@, cv)));
            },
            None => {
                self.files.push((f, classes));
                assert(self@ =~= old(self)@.push((file@, cv)));
            },
        }
    }

    /// Remove every table.
    pub fn clear(&mut self)
        ensures
            final(self)@ == Seq::<(Seq<char>, Seq<(Seq<char>, usize)>)>::empty(),
            final(self).wf(),
    {
        self.files.clear();
        assert(self@ == Seq::<(Seq<char>, Seq<(Seq<char>, usize)>)>::empty());
    }

    /// The number of style key `key` in file `f`'s table, giving it the next
    /// number when it has none (creating the table when the file has none).
    pub fn number_in(&mut self, f: &[char], key: &[char]) -> (r: usize)
        requires
            old(self).wf(),
        ensures
            final(self).wf(),
            r == class_num_of(file_entries(old(self)@, f@), key@),
            final(self)@ == with_class(old(self)@, f@, key@, r),
    {
        proof {
            lemma_index_of(self@, f@);
        }
        let mut name: Vec<char> = Vec::new();
        crate::text::push_all(&mut name, f);
        match self.find(f) {
            Some(i) => {
                let (nm, mut table) = self.files.remove(i);
                proof {
                    assert(old(self)@[i as int] == (nm@, table@));
                    assert(keys_distinct(table@));
                    assert(file_entries(old(self)@, f@) == table@);
                }
                let n = table.number_of(key);
                let ghost tv = table@;
                self.files.insert(i, (nm, table));
                proof {
                    lemma_assoc_set(old(self)@, f@, tv);
                    assert(self@ =~= old(self)@.update(i as int, (f@, tv)));
                    assert forall|j: int| 0 <= j < self@.len() implies keys_distinct(#[trigger] self@[j].1) by {
                        if j != i {
                            assert(self@[j] == old(self)@[j]);
                        }
                    }
                }
                n
            },
            None => {
                let mut table = FileClasses::new();
                let n = table.number_of(key);
                let ghost tv = table@;
                self.files.push((name, table));
                proof {
                    lemma_assoc_set(old(self)@, f@, tv);
                    assert(self@ =~= old(self)@.push((f@, tv)));
                    assert forall|j: int| 0 <= j < self@.len() implies keys_distinct(#[trigger] self@[j].1) by {
                        if j < old(self)@.len() {
                            assert(self@[j] == old(self)@[j]);
                        }
                    }
                }
                n
            },
        }
    }
}

impl Clone for ClassMap {
    fn clone(&self) -> (r: ClassMap)
        ensures
            r@ == self@,
    {
        let mut files: Vec<(Vec<char>, FileClasses)> = Vec::new();
        let mut i: usize = 0;
        while i < self.files.len()
            invariant
                i <= self.files@.len(),
                file_views(files@) == file_views(self.files@).take(i as int),
            decreases self.files@.len() - i,
        {
            let mut name: Vec<char> = Vec::new();
            crate::text::push_all(&mut name, &self.files[i].0);
            let t = self.files[i].1.clone();
            let ghost before = files@;
            assert(name@ == self.files@[i as int].0@);
            files.push((name, t));
            assert(file_views(files@) =~= file_views(before).push(file_views(self.files@)[i as int]));
            assert(file_views(self.files@).take(i + 1) =~= file_views(self.files@).take(i as int).push(file_views(self.files@)[i as int]));
            i = i + 1;
        }
        assert(file_views(self.files@).take(i as int) == file_views(self.files@));
        ClassMap { files }
    }
}

impl Clone for FileClasses {
    fn clone(&self) -> (r: FileClasses)
        ensures
            r@ == self@,
    {
        let mut entries: Vec<(Vec<char>, usize)> = Vec::new();
        let mut i: usize = 0;
        while i < self.entries.len()
            invariant
                i <= self.entries@.len(),
                pair_views(entries@) == pair_views(self.entries@).take(i as int),
            decreases self.entries@.len() - i,
        {
            let mut name: Vec<char> = Vec::new();
            crate::text::push_all(&mut name, &self.entries[i].0);
            let ghost before = entries@;
            assert(name@ == self.entries@[i as int].0@);
            entries.push((name, self.entries[i].1));
            assert(pair_views(entries@) =~= pair_views(before).push(pair_views(self.entries@)[i as int]));
            assert(pair_views(self.entries@).take(i + 1) =~= pair_views(self.entries@).take(i as int).push(pair_views(self.entries@)[i as int]));
            i = i + 1;
        }
        assert(pair_views(self.entries@).take(i as int) == pair_views(self.entries@));
        FileClasses { entries }
    }
}

/// Run `f` on the class map.
pub fn with_class_map<R, F: FnOnce(&ClassMap) -> R>(st: &CssState, f: F) -> (r: R)
    requires
        f.requires((&st.class_map,)),
    ensures
        f.ensures((&st.class_map,), r),
{
    f(&st.class_map)
}

/// Run `f` on the class map, letting it change the map: `f` takes the map
/// and hands back the map to keep together with its result.
pub fn with_class_map_mut<R, F: FnOnce(ClassMap) -> (ClassMap, R)>(st: &mut CssState, f: F) -> (r: R)
    requires
        f.requires((old(st).class_map,)),
    ensures
        f.ensures((old(st).class_map,), (final(st).class_map, r)),
        final(st).debug == old(st).debug,
        final(st).atom_hoist == old(st).atom_hoist,
        final(st).file_map == old(st).file_map,
        final(st).canonical_map == old(st).canonical_map,
        final(st).file_routes == old(st).file_routes,
        final(st).length_tokens == old(st).length_tokens,
        final(st).shadow_tokens == old(st).shadow_tokens,
{
    let mut map = ClassMap::new();
    std::mem::swap(&mut map, &mut st.class_map);
    let (kept, r) = f(map);
    st.class_map = kept;
    r
}

/// Forget every class number.
pub fn reset_class_map(st: &mut CssState)
    requires
        old(st).wf(),
    ensures
        final(st).wf(),
        final(st).class_map@ == Seq::<(Seq<char>, Seq<(Seq<char>, usize)>)>::empty(),
        final(st).debug == old(st).debug,
        final(st).atom_hoist == old(st).atom_hoist,
        final(st).file_map == old(st).file_map,
        final(st).canonical_map == old(st).canonical_map,
        final(st).file_routes == old(st).file_routes,
        final(st).length_tokens == old(st).length_tokens,
        final(st).shadow_tokens == old(st).shadow_tokens,
{
    st.class_map.clear();
}

/// Replace the class map.
pub fn set_class_map(st: &mut CssState, new_map: ClassMap)
    requires
        old(st).wf(),
        new_map.wf(),
    ensures
        final(st).wf(),
        final(st).class_map == new_map,
        final(st).debug == old(st).debug,
        final(st).atom_hoist == old(st).atom_hoist,
        final(st).file_map == old(st).file_map,
        final(st).canonical_map == old(st).canonical_map,
        final(st).file_routes == old(st).file_routes,
        final(st).length_tokens == old(st).length_tokens,
        final(st).shadow_tokens == old(st).shadow_tokens,
{
    st.class_map = new_map;
}

/// A copy of the class map.
pub fn get_class_map(st: &CssState) -> (r: ClassMap)
    ensures
        r@ == st.class_map@,
{
    st.class_map.clone()
}

} // verus!
