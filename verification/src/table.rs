//! A small map that remembers the order in which its keys arrived.

use vstd::prelude::*;

verus! {

/// A key of a [`Table`]: its view decides which keys count as the same.
pub trait Key: View + Sized {
    fn same(&self, other: &Self) -> (r: bool)
        ensures
            r == (self@ == other@),
    ;
}

impl Key for String {
    fn same(&self, other: &Self) -> (r: bool) {
        *self == *other
    }
}

/// No two entries of `s` carry the same key.
pub open spec fn distinct_keys<A, B>(s: Seq<(A, B)>) -> bool {
    forall|i: int, j: int| 0 <= i < j < s.len() ==> (#[trigger] s[i]).0 != (#[trigger] s[j]).0
}

/// Whether `s` has an entry under `k`.
pub open spec fn has_key<A, B>(s: Seq<(A, B)>, k: A) -> bool {
    exists|i: int| 0 <= i < s.len() && (#[trigger] s[i]).0 == k
}

/// Whether position `i` holds the first entry of `s` under its key.
pub open spec fn first_under_key<A, B>(s: Seq<(A, B)>, i: int) -> bool {
    &&& 0 <= i < s.len()
    &&& forall|j: int| 0 <= j < i ==> (#[trigger] s[j]).0 != s[i].0
}

/// The map that a list of entries stands for. Where a key occurs more than
/// once, its first entry counts.
pub open spec fn map_of<A, B>(s: Seq<(A, B)>) -> Map<A, B>
    decreases s.len(),
{
    if s.len() == 0 {
        Map::empty()
    } else {
        map_of(s.drop_first()).insert(s[0].0, s[0].1)
    }
}

/// The keys of the map are the keys of the entries.
pub proof fn lemma_map_of_dom<A, B>(s: Seq<(A, B)>, k: A)
    ensures
        map_of(s).contains_key(k) <==> has_key(s, k),
    decreases s.len(),
{
    if s.len() > 0 {
        let t = s.drop_first();
        lemma_map_of_dom(t, k);
        if has_key(s, k) {
            let i = choose|i: int| 0 <= i < s.len() && (#[trigger] s[i]).0 == k;
            if i > 0 {
                assert(t[i - 1] == s[i]);
            }
        }
        if has_key(t, k) {
            let i = choose|i: int| 0 <= i < t.len() && (#[trigger] t[i]).0 == k;
            assert(s[i + 1] == t[i]);
        }
        if s[0].0 == k {
            assert(has_key(s, k));
        }
    }
}

/// The first entry under a key gives the key's value.
pub proof fn lemma_map_of_first<A, B>(s: Seq<(A, B)>, i: int)
    requires
        first_under_key(s, i),
    ensures
        map_of(s).contains_key(s[i].0),
        map_of(s)[s[i].0] == s[i].1,
    decreases s.len(),
{
    if i > 0 {
        let t = s.drop_first();
        assert(t[i - 1] == s[i]);
        assert forall|j: int| 0 <= j < i - 1 implies (#[trigger] t[j]).0 != t[i - 1].0 by {
            assert(t[j] == s[j + 1]);
        }
        lemma_map_of_first(t, i - 1);
        assert(s[0].0 != s[i].0);
    }
}

/// Appending an entry under a key that is not there inserts it into the map.
pub proof fn lemma_map_of_push<A, B>(s: Seq<(A, B)>, k: A, v: B)
    requires
        !has_key(s, k),
    ensures
        map_of(s.push((k, v))) == map_of(s).insert(k, v),
    decreases s.len(),
{
    let p = s.push((k, v));
    if s.len() == 0 {
        assert(p.drop_first() =~= s);
        assert(map_of(p) =~= map_of(s).insert(k, v));
    } else {
        let t = s.drop_first();
        assert(p.drop_first() =~= t.push((k, v)));
        if has_key(t, k) {
            let i = choose|i: int| 0 <= i < t.len() && (#[trigger] t[i]).0 == k;
            assert(s[i + 1] == t[i]);
        }
        lemma_map_of_push(t, k, v);
        assert(s[0].0 != k) by {
            if s[0].0 == k {
                assert(has_key(s, k));
            }
        }
        assert(map_of(p) =~= map_of(s).insert(k, v));
    }
}

/// Giving the first entry under a key a new value inserts that value into the map.
pub proof fn lemma_map_of_update<A, B>(s: Seq<(A, B)>, i: int, v: B)
    requires
        first_under_key(s, i),
    ensures
        map_of(s.update(i, (s[i].0, v))) == map_of(s).insert(s[i].0, v),
    decreases s.len(),
{
    let u = s.update(i, (s[i].0, v));
    if i == 0 {
        assert(u.drop_first() =~= s.drop_first());
        assert(map_of(u) =~= map_of(s).insert(s[i].0, v));
    } else {
        let t = s.drop_first();
        assert(t[i - 1] == s[i]);
        assert forall|j: int| 0 <= j < i - 1 implies (#[trigger] t[j]).0 != t[i - 1].0 by {
            assert(t[j] == s[j + 1]);
        }
        lemma_map_of_update(t, i - 1, v);
        assert(u.drop_first() =~= t.update(i - 1, (t[i - 1].0, v)));
        assert(s[0].0 != s[i].0);
        assert(map_of(u) =~= map_of(s).insert(s[i].0, v));
    }
}

/// A map from keys to values, kept as a list of entries in order of first
/// insertion.
#[derive(Debug, PartialEq)]
pub struct Table<K: Key, V> {
    list: Vec<(K, V)>,
}

impl<K: Key, V> View for Table<K, V> {
    type V = Map<K::V, V>;

    open spec fn view(&self) -> Map<K::V, V> {
        map_of(self.entries())
    }
}

impl<K: Key, V> Table<K, V> {
    /// The entries in order of first insertion, each key by its view.
    pub closed spec fn entries(&self) -> Seq<(K::V, V)> {
        Seq::new(self.list@.len(), |i: int| (self.list@[i].0@, self.list@[i].1))
    }

    /// No key occurs twice. A table made by `new` and `insert` always is.
    pub open spec fn wf(&self) -> bool {
        distinct_keys(self.entries())
    }

    /// A table without entries.
    pub fn new() -> (r: Self)
        ensures
            r@ == Map::<K::V, V>::empty(),
            r.entries() == Seq::<(K::V, V)>::empty(),
            r.wf(),
    {
        let r = Table { list: Vec::new() };
        assert(r.entries() =~= Seq::<(K::V, V)>::empty());
        r
    }

    /// The number of entries.
    pub fn len(&self) -> (r: usize)
        ensures
            r as nat == self.entries().len(),
    {
        self.list.len()
    }

    /// The position of the first entry under `key`, if there is one.
    pub fn index_of(&self, key: &K) -> (r: Option<usize>)
        ensures
            match r {
                Some(i) => first_under_key(self.entries(), i as int) && self.entries()[i as int].0
                    == key@ && self@.contains_key(key@) && self@[key@] == self.entries()[i as int].1,
                None => !self@.contains_key(key@) && !has_key(self.entries(), key@),
            },
    {
        let mut i: usize = 0;
        while i < self.list.len()
            invariant
                0 <= i <= self.list@.len(),
                forall|j: int| 0 <= j < i ==> (#[trigger] self.entries()[j]).0 != key@,
            decreases self.list@.len() - i,
        {
            if self.list[i].0.same(key) {
                proof {
                    lemma_map_of_first(self.entries(), i as int);
                }
                return Some(i);
            }
            i += 1;
        }
        proof {
            lemma_map_of_dom(self.entries(), key@);
        }
        None
    }

    /// Whether the table has an entry under `key`.
    pub fn contains_key(&self, key: &K) -> (r: bool)
        ensures
            r == self@.contains_key(key@),
    {
        self.index_of(key).is_some()
    }

    /// The value under `key`, if there is one.
    pub fn get(&self, key: &K) -> (r: Option<&V>)
        ensures
            match r {
                Some(v) => self@.contains_key(key@) && *v == self@[key@],
                None => !self@.contains_key(key@),
            },
    {
        match self.index_of(key) {
            Some(i) => Some(&self.list[i].1),
            None => None,
        }
    }

    /// The key at position `i`.
    pub fn key_at(&self, i: usize) -> (r: &K)
        requires
            i < self.entries().len(),
        ensures
            r@ == self.entries()[i as int].0,
    {
        &self.list[i].0
    }

    /// The value at position `i`.
    pub fn value_at(&self, i: usize) -> (r: &V)
        requires
            i < self.entries().len(),
        ensures
            *r == self.entries()[i as int].1,
    {
        &self.list[i].1
    }

    /// Binds `key` to `value`. A key that is already there keeps its place
    /// and gets the new value.
    pub fn insert(&mut self, key: K, value: V)
        ensures
            final(self)@ == old(self)@.insert(key@, value),
            old(self)@.contains_key(key@) ==> final(self).entries().len() == old(
                self,
            ).entries().len(),
            !old(self)@.contains_key(key@) ==> final(self).entries() == old(self).entries().push(
                (key@, value),
            ),
            old(self).wf() ==> final(self).wf(),
    {
        let ghost before = self.entries();
        match self.index_of(&key) {
            Some(i) => {
                self.list[i] = (key, value);
                proof {
                    lemma_map_of_update(before, i as int, value);
                    assert(self.entries() =~= before.update(i as int, (key@, value)));
                    if distinct_keys(before) {
                        assert forall|a: int, b: int| 0 <= a < b < self.entries().len() implies (
                        #[trigger] self.entries()[a]).0 != (#[trigger] self.entries()[b]).0 by {
                            assert(before[a].0 != before[b].0);
                        }
                    }
                }
            },
            None => {
                self.list.push((key, value));
                proof {
                    lemma_map_of_push(before, key@, value);
                    assert(self.entries() =~= before.push((key@, value)));
                    if distinct_keys(before) {
                        assert forall|a: int, b: int| 0 <= a < b < self.entries().len() implies (
                        #[trigger] self.entries()[a]).0 != (#[trigger] self.entries()[b]).0 by {
                            if b < before.len() {
                                assert(before[a].0 != before[b].0);
                            } else {
                                assert(before[a] == self.entries()[a]);
                            }
                        }
                    }
                }
            },
        }
    }

    /// The value at position `i`, for changing it in place.
    pub fn value_at_mut(&mut self, i: usize) -> (r: &mut V)
        requires
            i < old(self).entries().len(),
        ensures
            *r == old(self).entries()[i as int].1,
            final(self).entries() == old(self).entries().update(
                i as int,
                (old(self).entries()[i as int].0, *final(r)),
            ),
            old(self).wf() ==> final(self).wf(),
    {
        let ghost before = self.entries();
        let ghost list = self.list@;
        let r = &mut self.list[i].1;
        proof {
            let after = list.update(i as int, (list[i as int].0, *final(r)));
            let entries = before.update(i as int, (before[i as int].0, *final(r)));
            assert(Seq::new(after.len(), |j: int| (after[j].0@, after[j].1)) =~= entries);
            if distinct_keys(before) {
                assert forall|a: int, b: int| 0 <= a < b < entries.len() implies (
                #[trigger] entries[a]).0 != (#[trigger] entries[b]).0 by {
                    assert(before[a].0 != before[b].0);
                }
            }
        }
        r
    }

    /// The value under `key`, for changing it in place.
    pub fn get_mut(&mut self, key: &K) -> (r: Option<&mut V>)
        ensures
            match r {
                Some(v) => old(self)@.contains_key(key@) && *v == old(self)@[key@] && final(self)@
                    == old(self)@.insert(key@, *final(v)),
                None => !old(self)@.contains_key(key@) && final(self)@ == old(self)@,
            },
            old(self).wf() ==> final(self).wf(),
    {
        let ghost before = self.entries();
        match self.index_of(key) {
            Some(i) => {
                let r = self.value_at_mut(i);
                proof {
                    lemma_map_of_update(before, i as int, *final(r));
                }
                Some(r)
            },
            None => None,
        }
    }
}

} // verus!
