//! A map keyed by strings, kept as an association list with distinct keys.
use vstd::prelude::*;
use crate::class_map::{assoc_set, index_of, keys_distinct, lemma_assoc_set, lemma_index_of, lookup};
use crate::selector_order::{text_order, text_order_exec};
use crate::text::{chars_eq, chars_of};

verus! {

/// Values keyed by string.
#[derive(Debug, PartialEq, Eq)]
pub struct StrMap<V> {
    entries: Vec<(Vec<char>, V)>,
}

pub open spec fn key_views<V>(s: Seq<(Vec<char>, V)>) -> Seq<(Seq<char>, V)> {
    s.map_values(|p: (Vec<char>, V)| (p.0@, p.1))
}

/// `x` put after the entries whose key does not sort after its own.
pub open spec fn insert_by_key<V>(s: Seq<(Seq<char>, V)>, x: (Seq<char>, V)) -> Seq<(Seq<char>, V)>
    decreases s.len(),
{
    if s.len() == 0 {
        seq![x]
    } else if text_order(s.last().0, x.0) > 0 {
        insert_by_key(s.drop_last(), x).push(s.last())
    } else {
        s.push(x)
    }
}

/// `k` mapped to `v`: its old value replaced, or a new entry placed in key
/// order (the order a `BTreeMap` keeps).
pub open spec fn sorted_set<V>(s: Seq<(Seq<char>, V)>, k: Seq<char>, v: V) -> Seq<(Seq<char>, V)> {
    match index_of(s, k) {
        Some(i) => s.update(i, (k, v)),
        None => insert_by_key(s, (k, v)),
    }
}

pub proof fn lemma_insert_by_key_at<V>(s: Seq<(Seq<char>, V)>, x: (Seq<char>, V), j: int)
    requires
        0 <= j <= s.len(),
        forall|k: int| j <= k < s.len() ==> text_order(#[trigger] s[k].0, x.0) > 0,
        j == 0 || text_order(s[j - 1].0, x.0) <= 0,
    ensures
        insert_by_key(s, x) == s.take(j).push(x) + s.skip(j),
    decreases s.len(),
{
    if s.len() == j {
        assert(s.skip(j) =~= Seq::<(Seq<char>, V)>::empty());
        assert(s.take(j) =~= s);
        if s.len() > 0 {
            assert(s.last() == s[j - 1]);
        }
    } else {
        let t = s.drop_last();
        assert(text_order(s[s.len() - 1].0, x.0) > 0);
        assert forall|k: int| j <= k < t.len() implies text_order(#[trigger] t[k].0, x.0) > 0 by {
            assert(t[k] == s[k]);
        }
        if j > 0 {
            assert(t[j - 1] == s[j - 1]);
        }
        lemma_insert_by_key_at(t, x, j);
        assert(t.take(j) =~= s.take(j));
        assert(t.skip(j).push(s.last()) =~= s.skip(j));
        assert(t.take(j).push(x) + t.skip(j).push(s.last()) =~= (t.take(j).push(x) + t.skip(j)).push(s.last()));
    }
}

impl<V> View for StrMap<V> {
    type V = Seq<(Seq<char>, V)>;

    closed spec fn view(&self) -> Seq<(Seq<char>, V)> {
        key_views(self.entries@)
    }
}

impl<V> StrMap<V> {
    pub open spec fn wf(&self) -> bool {
        keys_distinct(self@)
    }

    /// An empty map.
    pub fn new() -> (r: StrMap<V>)
        ensures
            r@ == Seq::<(Seq<char>, V)>::empty(),
            r.wf(),
    {
        let r = StrMap { entries: Vec::new() };
        assert(r@ == Seq::<(Seq<char>, V)>::empty());
        r
    }

    /// The entries, in order.
    pub(crate) fn entries(&self) -> (r: &Vec<(Vec<char>, V)>)
        ensures
            key_views(r@) == self@,
    {
        &self.entries
    }

    /// The number of keys.
    pub fn len(&self) -> (r: usize)
        ensures
            r == self@.len(),
    {
        self.entries.len()
    }

    pub fn is_empty(&self) -> (r: bool)
        ensures
            r == (self@.len() == 0),
    {
        self.entries.len() == 0
    }

    /// Remove every key.
    pub fn clear(&mut self)
        ensures
            final(self)@ == Seq::<(Seq<char>, V)>::empty(),
            final(self).wf(),
    {
        self.entries.clear();
        assert(self@ == Seq::<(Seq<char>, V)>::empty());
    }

    fn find(&self, k: &[char]) -> (r: Option<usize>)
        ensures
            match r {
                Some(i) => index_of(self@, k@) == Some(i as int) && i < self@.len(),
                None => index_of(self@, k@).is_none(),
            },
    {
        proof {
            lemma_index_of(self@, k@);
        }
        let mut i = self.entries.len();
        assert(self@.take(i as int) == self@);
        while i > 0
            invariant
                i <= self.entries@.len(),
                self@ == key_views(self.entries@),
                index_of(self@, k@) == index_of(self@.take(i as int), k@),
            decreases i,
        {
            let ghost t = self@.take(i as int);
            assert(t.drop_last() == self@.take(i - 1));
            assert(t.last() == self@[i - 1]);
            if chars_eq(&self.entries[i - 1].0, k) {
                return Some(i - 1);
            }
            i = i - 1;
        }
        None
    }

    /// The value under `key`.
    pub fn get(&self, key: &str) -> (r: Option<&V>)
        ensures
            match r {
                Some(v) => lookup(self@, key@) == Some(*v),
                None => lookup(self@, key@).is_none(),
            },
    {
        proof {
            lemma_index_of(self@, key@);
        }
        let k = chars_of(key);
        match self.find(&k) {
            Some(i) => Some(&self.entries[i].1),
            None => None,
        }
    }

    /// Map `key` to `v`, replacing its old value if it had one.
    pub fn insert(&mut self, key: &str, v: V)
        requires
            old(self).wf(),
        ensures
            final(self).wf(),
            final(self)@ == assoc_set(old(self)@, key@, v),
    {
        proof {
            lemma_assoc_set(self@, key@, v);
            lemma_index_of(self@, key@);
        }
        let k = chars_of(key);
        match self.find(&k) {
            Some(i) => {
                self.entries.set(i, (k, v));
                assert(key_views(self.entries@) =~= old(self)@.update(i as int, (key@, v)));
            },
            None => {
                self.entries.push((k, v));
                assert(key_views(self.entries@) =~= old(self)@.push((key@, v)));
            },
        }
    }

    /// Map `key` to `v`, replacing its old value if it had one; a new key is
    /// placed in key order, so a map filled only this way iterates its keys
    /// in order, as a `BTreeMap` does.
    pub fn insert_sorted(&mut self, key: &str, v: V)
        requires
            old(self).wf(),
        ensures
            final(self).wf(),
            final(self)@ == sorted_set(old(self)@, key@, v),
    {
        proof {
            lemma_index_of(self@, key@);
        }
        let k = chars_of(key);
        match self.find(&k) {
            Some(i) => {
                self.entries.set(i, (k, v));
                assert(key_views(self.entries@) =~= old(self)@.update(i as int, (key@, v)));
            },
            None => {
                let ghost s = self@;
                let mut j = self.entries.len();
                while j > 0
                        invariant
                        j <= self.entries@.len(),
                        s == key_views(self.entries@),
                        k@ == key@,
                        forall|q: int| j <= q < s.len() ==> text_order(#[trigger] s[q].0, key@) > 0,
                    ensures
                        j == 0 || text_order(s[j - 1].0, key@) <= 0,
                    decreases j,
                {
                    assert(s[j - 1].0 == self.entries@[j - 1].0@);
                    let c = text_order_exec(self.entries[j - 1].0.as_slice(), k.as_slice());
                    assert(c as int == text_order(s[j - 1].0, key@));
                    if c <= 0 {
                        break;
                    }
                    j = j - 1;
                }
                proof {
                    lemma_insert_by_key_at(s, (key@, v), j as int);
                }
                let ghost before = self.entries@;
                self.entries.insert(j, (k, v));
                let ghost r = s.take(j as int).push((key@, v)) + s.skip(j as int);
                assert(key_views(self.entries@) =~= r) by {
                    assert(self.entries@ == before.insert(j as int, (k, v)));
                }
                assert forall|a: int, b: int| 0 <= a < b < r.len() implies (#[trigger] r[a]).0 != (#[trigger] r[b]).0 by {
                    let ja = j as int;
                    if a < ja && b < ja {
                        assert(r[a] == s[a] && r[b] == s[b]);
                    } else if a < ja && b == ja {
                        assert(r[a] == s[a]);
                    } else if a < ja {
                        assert(r[a] == s[a] && r[b] == s[b - 1]);
                    } else if a == ja {
                        assert(r[b] == s[b - 1]);
                    } else {
                        assert(r[a] == s[a - 1] && r[b] == s[b - 1]);
                    }
                }
            },
        }
    }

    /// The key at position `i`.
    pub fn key_at(&self, i: usize) -> (r: &Vec<char>)
        requires
            i < self@.len(),
        ensures
            r@ == self@[i as int].0,
    {
        &self.entries[i].0
    }

    /// The value at position `i`.
    pub fn value_at(&self, i: usize) -> (r: &V)
        requires
            i < self@.len(),
        ensures
            *r == self@[i as int].1,
    {
        &self.entries[i].1
    }
}

impl<V: Clone> Clone for StrMap<V> {
    /// A copy with the same keys in the same order, each value cloned.
    fn clone(&self) -> (r: StrMap<V>)
        ensures
            r@.len() == self@.len(),
            forall|i: int|
                0 <= i < self@.len() ==> (#[trigger] r@[i]).0 == self@[i].0 && cloned(
                    self@[i].1,
                    r@[i].1,
                ),
    {
        let mut entries: Vec<(Vec<char>, V)> = Vec::new();
        let mut i: usize = 0;
        while i < self.entries.len()
            invariant
                i <= self.entries@.len(),
                entries@.len() == i,
                forall|j: int|
                    0 <= j < i ==> (#[trigger] entries@[j]).0@ == self.entries@[j].0@ && cloned(
                        self.entries@[j].1,
                        entries@[j].1,
                    ),
            decreases self.entries@.len() - i,
        {
            let mut name: Vec<char> = Vec::new();
            crate::text::push_all(&mut name, &self.entries[i].0);
            let v = self.entries[i].1.clone();
            entries.push((name, v));
            i = i + 1;
        }
        StrMap { entries }
    }
}

} // verus!
