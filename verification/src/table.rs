//! Tables and sets whose keys are told apart by an identity of their own.

use crate::path::{PathKey, UnixPath};
use crate::text::text_eq;
use vstd::prelude::*;

verus! {

/// A key: what identifies it, and how to compare two.
pub trait Key: Sized {
    /// What identifies the key.
    type Id;

    spec fn id(&self) -> Self::Id;

    /// Whether two keys are the same.
    fn same_id(&self, other: &Self) -> (r: bool)
        ensures
            r == (self.id() == other.id()),
    ;

    /// The same key once more.
    fn again(&self) -> (r: Self)
        ensures
            r == *self,
    ;
}

impl Key for String {
    type Id = Seq<char>;

    open spec fn id(&self) -> Seq<char> {
        self@
    }

    fn same_id(&self, other: &Self) -> (r: bool) {
        text_eq(self.as_str(), other.as_str())
    }

    fn again(&self) -> (r: Self) {
        self.clone()
    }
}

impl Key for UnixPath {
    type Id = PathKey;

    open spec fn id(&self) -> PathKey {
        self.key()
    }

    fn same_id(&self, other: &Self) -> (r: bool) {
        self.same(other)
    }

    fn again(&self) -> (r: Self) {
        self.duplicate()
    }
}

/// The identities of a list of keys.
pub open spec fn ids<K: Key>(items: Seq<K>) -> Seq<K::Id> {
    items.map_values(|k: K| k.id())
}

/// The keys of a list by what identifies them.
pub open spec fn by_id<K: Key>(items: Seq<K>) -> Map<K::Id, K> {
    Map::new(|x: K::Id| ids(items).contains(x), |x: K::Id| items[ids(items).index_of(x)])
}

/// A set of keys, in the order of their arrival. Of two keys with the same
/// identity the first one stays.
pub struct KeySet<K: Key> {
    items: Vec<K>,
}

impl<K: Key> View for KeySet<K> {
    type V = Set<K::Id>;

    closed spec fn view(&self) -> Set<K::Id> {
        ids(self.items@).to_set()
    }
}

impl<K: Key> KeySet<K> {
    /// The keys in the order of their arrival.
    pub closed spec fn order(&self) -> Seq<K> {
        self.items@
    }

    /// The keys by what identifies them, each as it arrived.
    pub closed spec fn entries(&self) -> Map<K::Id, K> {
        by_id(self.items@)
    }

    /// Nothing is held twice.
    pub closed spec fn wf(&self) -> bool {
        ids(self.items@).no_duplicates()
    }

    /// What the order and the set have to do with each other.
    pub proof fn lemma_order(&self)
        requires
            self.wf(),
        ensures
            ids(self.order()).no_duplicates(),
            ids(self.order()).to_set() == self@,
            self@.finite(),
            self@.len() == self.order().len(),
            self.entries().dom() == self@,
            forall|i: int|
                0 <= i < self.order().len() ==> self@.contains((#[trigger] self.order()[i]).id())
                    && self.entries()[self.order()[i].id()] == self.order()[i],
            forall|x: K::Id| #[trigger]
                self.entries().dom().contains(x) ==> self.entries()[x].id() == x,
    {
        let s = ids(self.items@);
        s.unique_seq_to_set();
        vstd::seq_lib::seq_to_set_is_finite(s);
        assert(self.entries().dom() =~= self@);
        assert forall|i: int| 0 <= i < self.order().len() implies self@.contains(
            (#[trigger] self.order()[i]).id(),
        ) && self.entries()[self.order()[i].id()] == self.order()[i] by {
            assert(s[i] == self.order()[i].id());
            assert(s.index_of(s[i]) == i);
        }
        assert forall|x: K::Id| #[trigger] self.entries().dom().contains(x) implies
            self.entries()[x].id() == x by {
            let i = s.index_of(x);
            assert(s[i] == x);
        }
    }

    /// The empty set.
    pub fn new() -> (r: Self)
        ensures
            r.wf(),
            r@ == Set::<K::Id>::empty(),
            r.order() == Seq::<K>::empty(),
            r.entries() == Map::<K::Id, K>::empty(),
    {
        let r = KeySet { items: Vec::new() };
        assert(r@ =~= Set::<K::Id>::empty());
        assert(r.entries() =~= Map::<K::Id, K>::empty());
        r
    }

    /// How many keys there are.
    pub fn len(&self) -> (r: usize)
        requires
            self.wf(),
        ensures
            r == self@.len(),
            r == self.order().len(),
    {
        proof {
            self.lemma_order();
        }
        self.items.len()
    }

    /// The `i`-th key.
    pub fn at(&self, i: usize) -> (r: &K)
        requires
            i < self.order().len(),
        ensures
            *r == self.order()[i as int],
            self@.contains(r.id()),
    {
        assert(ids(self.items@)[i as int] == self.items@[i as int].id());
        &self.items[i]
    }

    fn find(&self, key: &K) -> (r: Option<usize>)
        ensures
            match r {
                Some(i) => i < self.items.len() && self.items[i as int].id() == key.id(),
                None => !self@.contains(key.id()),
            },
    {
        let mut i: usize = 0;
        while i < self.items.len()
            invariant
                i <= self.items.len(),
                forall|j: int| 0 <= j < i ==> ids(self.items@)[j] != key.id(),
            decreases self.items.len() - i,
        {
            if self.items[i].same_id(key) {
                return Some(i);
            }
            i += 1;
        }
        None
    }

    /// The key that is the same as `key`, as it arrived.
    pub fn key_like(&self, key: &K) -> (r: K)
        requires
            self.wf(),
            self@.contains(key.id()),
        ensures
            r == self.entries()[key.id()],
            r.id() == key.id(),
    {
        match self.find(key) {
            Some(i) => {
                proof {
                    self.lemma_order();
                }
                self.items[i].again()
            },
            None => key.again(),
        }
    }

    /// Whether `key` is there.
    pub fn contains(&self, key: &K) -> (r: bool)
        ensures
            r == self@.contains(key.id()),
    {
        match self.find(key) {
            Some(i) => {
                assert(ids(self.items@)[i as int] == key.id());
                true
            },
            None => false,
        }
    }

    /// Adds `key`; returns whether it was new.
    pub fn insert(&mut self, key: K) -> (r: bool)
        requires
            old(self).wf(),
        ensures
            final(self).wf(),
            final(self)@ == old(self)@.insert(key.id()),
            r == !old(self)@.contains(key.id()),
            final(self).order() == if r {
                old(self).order().push(key)
            } else {
                old(self).order()
            },
            final(self).entries() == if r {
                old(self).entries().insert(key.id(), key)
            } else {
                old(self).entries()
            },
    {
        if self.contains(&key) {
            assert(self@.insert(key.id()) =~= self@);
            return false;
        }
        let ghost before = self.items@;
        self.items.push(key);
        proof {
            assert(ids(self.items@) =~= ids(before).push(key.id()));
            assert forall|x: K::Id| ids(self.items@).contains(x) == ids(before).to_set().insert(
                key.id(),
            ).contains(x) by {
                if ids(before).contains(x) {
                    let k = choose|k: int| 0 <= k < ids(before).len() && ids(before)[k] == x;
                    assert(ids(self.items@)[k] == x);
                }
                assert(ids(self.items@)[before.len() as int] == key.id());
            }
            assert(self@ =~= old(self)@.insert(key.id()));
            let s = ids(before);
            let t = ids(self.items@);
            assert forall|x: K::Id| #[trigger] t.contains(x) implies self.entries()[x] == old(
                self,
            ).entries().insert(key.id(), key)[x] by {
                let k = t.index_of(x);
                assert(t[k] == x);
                if k < s.len() {
                    assert(s[k] == x);
                    assert(s.index_of(x) == k);
                }
            }
            assert(self.entries() =~= old(self).entries().insert(key.id(), key));
        }
        true
    }

    /// Takes `key` out; returns whether it was there.
    pub fn remove(&mut self, key: &K) -> (r: bool)
        requires
            old(self).wf(),
        ensures
            final(self).wf(),
            final(self)@ == old(self)@.remove(key.id()),
            r == old(self)@.contains(key.id()),
            final(self).entries() == old(self).entries().remove(key.id()),
    {
        match self.find(key) {
            Some(i) => {
                let ghost before = self.items@;
                assert(ids(before)[i as int] == key.id());
                let _k = self.items.remove(i);
                proof {
                    assert(ids(self.items@) =~= ids(before).remove(i as int));
                    lemma_remove_at(ids(before), i as int);
                    let s = ids(before);
                    let t = ids(self.items@);
                    assert forall|x: K::Id| t.contains(x) == (s.contains(x) && x != key.id()) by {
                        assert(t.to_set().contains(x) == s.to_set().remove(s[i as int]).contains(
                            x,
                        ));
                    }
                    assert forall|x: K::Id| #[trigger] t.contains(x) implies self.entries()[x]
                        == old(self).entries()[x] by {
                        let k = t.index_of(x);
                        assert(t[k] == x);
                        let j = if k < i { k } else { k + 1 };
                        assert(s[j] == x);
                        assert(s.index_of(x) == j);
                    }
                    assert(self.entries() =~= old(self).entries().remove(key.id()));
                }
                true
            },
            None => {
                assert(self@.remove(key.id()) =~= self@);
                assert(self.entries().remove(key.id()) =~= self.entries());
                false
            },
        }
    }

    /// The same set once more.
    pub fn again(&self) -> (r: Self)
        requires
            self.wf(),
        ensures
            r.wf(),
            r@ == self@,
            r.order() == self.order(),
            r.entries() == self.entries(),
    {
        KeySet { items: self.to_vec() }
    }

    /// The keys as a list.
    pub fn to_vec(&self) -> (r: Vec<K>)
        requires
            self.wf(),
        ensures
            r@ == self.order(),
            ids(r@).no_duplicates(),
            ids(r@).to_set() == self@,
    {
        let mut r: Vec<K> = Vec::new();
        let mut i: usize = 0;
        while i < self.items.len()
            invariant
                i <= self.items.len(),
                r@ == self.items@.take(i as int),
            decreases self.items.len() - i,
        {
            r.push(self.items[i].again());
            assert(self.items@.take(i as int).push(self.items@[i as int]) =~= self.items@.take(
                i + 1,
            ));
            i += 1;
        }
        assert(self.items@.take(self.items.len() as int) =~= self.items@);
        r
    }
}

/// Taking one element out of a sequence without duplicates takes it out of the
/// set of its elements.
pub proof fn lemma_remove_at<A>(s: Seq<A>, i: int)
    requires
        s.no_duplicates(),
        0 <= i < s.len(),
    ensures
        s.remove(i).no_duplicates(),
        s.remove(i).to_set() == s.to_set().remove(s[i]),
        forall|k: int| 0 <= k < i ==> s.remove(i)[k] == s[k],
        forall|k: int| i <= k < s.len() - 1 ==> s.remove(i)[k] == s[k + 1],
{
    let t = s.remove(i);
    assert forall|x: A| t.contains(x) == s.to_set().remove(s[i]).contains(x) by {
        if t.contains(x) {
            let k = choose|k: int| 0 <= k < t.len() && t[k] == x;
            assert(s[if k < i { k } else { k + 1 }] == x);
        }
        if s.contains(x) && x != s[i] {
            let k = choose|k: int| 0 <= k < s.len() && s[k] == x;
            assert(t[if k < i { k } else { k - 1 }] == x);
        }
    }
    assert(t.to_set() =~= s.to_set().remove(s[i]));
}

/// Putting one more element at the end puts it into the set of the elements.
pub proof fn lemma_push_set<A>(s: Seq<A>, x: A)
    ensures
        s.push(x).to_set() == s.to_set().insert(x),
        s.no_duplicates() && !s.contains(x) ==> s.push(x).no_duplicates(),
{
    let t = s.push(x);
    assert forall|y: A| t.contains(y) == s.to_set().insert(x).contains(y) by {
        if s.contains(y) {
            let k = choose|k: int| 0 <= k < s.len() && s[k] == y;
            assert(t[k] == y);
        }
        assert(t[s.len() as int] == x);
    }
    assert(t.to_set() =~= s.to_set().insert(x));
}

/// The first `i + 1` elements are the first `i` and the next.
pub proof fn lemma_take_next<A>(s: Seq<A>, i: int)
    requires
        0 <= i < s.len(),
    ensures
        s.take(i + 1) == s.take(i).push(s[i]),
        s.take(i + 1).to_set() == s.take(i).to_set().insert(s[i]),
        s.no_duplicates() ==> !s.take(i).contains(s[i]),
{
    assert(s.take(i + 1) =~= s.take(i).push(s[i]));
    lemma_push_set(s.take(i), s[i]);
}

/// A table from keys to values, in the order of the keys' arrival.
pub struct Table<K: Key, V> {
    entries: Vec<(K, V)>,
}

/// The identities of a list of entries.
pub open spec fn entry_ids<K: Key, V>(entries: Seq<(K, V)>) -> Seq<K::Id> {
    entries.map_values(|e: (K, V)| e.0.id())
}

/// The entries without the one of `id`.
pub open spec fn without<K: Key, V>(entries: Seq<(K, V)>, id: K::Id) -> Seq<(K, V)> {
    let s = entry_ids(entries);
    if s.contains(id) {
        entries.remove(s.index_of(id))
    } else {
        entries
    }
}

impl<K: Key, V> View for Table<K, V> {
    type V = Map<K::Id, V>;

    closed spec fn view(&self) -> Map<K::Id, V> {
        Map::new(
            |x: K::Id| entry_ids(self.entries@).contains(x),
            |x: K::Id| self.entries@[entry_ids(self.entries@).index_of(x)].1,
        )
    }
}

impl<K: Key, V> Table<K, V> {
    /// The entries in the order of their keys' arrival.
    pub closed spec fn order(&self) -> Seq<(K, V)> {
        self.entries@
    }

    /// No key is held twice.
    pub closed spec fn wf(&self) -> bool {
        entry_ids(self.entries@).no_duplicates()
    }

    /// What the order and the map have to do with each other.
    pub proof fn lemma_order(&self)
        requires
            self.wf(),
        ensures
            entry_ids(self.order()).no_duplicates(),
            entry_ids(self.order()).to_set() == self@.dom(),
            self@.dom().finite(),
            self@.dom().len() == self.order().len(),
            forall|i: int|
                0 <= i < self.order().len() ==> self@.dom().contains(
                    (#[trigger] self.order()[i]).0.id(),
                ) && self@[self.order()[i].0.id()] == self.order()[i].1,
    {
        let s = entry_ids(self.entries@);
        s.unique_seq_to_set();
        vstd::seq_lib::seq_to_set_is_finite(s);
        assert(s.to_set() =~= self@.dom());
        assert forall|i: int| 0 <= i < self.order().len() implies self@.dom().contains(
            (#[trigger] self.order()[i]).0.id(),
        ) && self@[self.order()[i].0.id()] == self.order()[i].1 by {
            assert(s[i] == self.order()[i].0.id());
            assert(s.index_of(s[i]) == i);
        }
    }

    /// Where the entry of a key stands.
    pub proof fn lemma_entry(&self, id: K::Id) -> (i: int)
        requires
            self.wf(),
            self@.dom().contains(id),
        ensures
            0 <= i < self.order().len(),
            self.order()[i].0.id() == id,
            self@[id] == self.order()[i].1,
    {
        self.lemma_order();
        let s = entry_ids(self.order());
        assert(s.to_set().contains(id));
        let i = choose|i: int| 0 <= i < s.len() && s[i] == id;
        assert(s[i] == self.order()[i].0.id());
        i
    }

    /// The empty table.
    pub fn new() -> (r: Self)
        ensures
            r.wf(),
            r@ == Map::<K::Id, V>::empty(),
            r.order() == Seq::<(K, V)>::empty(),
    {
        let r = Table { entries: Vec::new() };
        assert(r@ =~= Map::<K::Id, V>::empty());
        r
    }

    /// How many entries there are.
    pub fn len(&self) -> (r: usize)
        requires
            self.wf(),
        ensures
            r == self@.dom().len(),
            r == self.order().len(),
    {
        proof {
            self.lemma_order();
        }
        self.entries.len()
    }

    /// The `i`-th key.
    pub fn key_at(&self, i: usize) -> (r: &K)
        requires
            self.wf(),
            i < self.order().len(),
        ensures
            *r == self.order()[i as int].0,
    {
        &self.entries[i].0
    }

    /// The value of the `i`-th key.
    pub fn value_at(&self, i: usize) -> (r: &V)
        requires
            self.wf(),
            i < self.order().len(),
        ensures
            *r == self.order()[i as int].1,
            self@[self.order()[i as int].0.id()] == *r,
    {
        proof {
            self.lemma_order();
        }
        &self.entries[i].1
    }

    /// Where `key` stands.
    pub fn find(&self, key: &K) -> (r: Option<usize>)
        requires
            self.wf(),
        ensures
            match r {
                Some(i) => {
                    &&& i < self.order().len()
                    &&& self.order()[i as int].0.id() == key.id()
                    &&& self@.dom().contains(key.id())
                    &&& self@[key.id()] == self.order()[i as int].1
                },
                None => !self@.dom().contains(key.id()),
            },
    {
        let mut i: usize = 0;
        while i < self.entries.len()
            invariant
                self.wf(),
                i <= self.entries.len(),
                forall|j: int| 0 <= j < i ==> entry_ids(self.entries@)[j] != key.id(),
            decreases self.entries.len() - i,
        {
            if self.entries[i].0.same_id(key) {
                proof {
                    self.lemma_order();
                    assert(self.order()[i as int].0.id() == key.id());
                }
                return Some(i);
            }
            i += 1;
        }
        None
    }

    /// Whether `key` has an entry.
    pub fn contains_key(&self, key: &K) -> (r: bool)
        requires
            self.wf(),
        ensures
            r == self@.dom().contains(key.id()),
    {
        self.find(key).is_some()
    }

    /// The value of `key`.
    pub fn get(&self, key: &K) -> (r: Option<&V>)
        requires
            self.wf(),
        ensures
            match r {
                Some(v) => self@.dom().contains(key.id()) && self@[key.id()] == *v,
                None => !self@.dom().contains(key.id()),
            },
    {
        match self.find(key) {
            Some(i) => Some(&self.entries[i].1),
            None => None,
        }
    }

    /// Replaces the value of the `i`-th key.
    pub fn set_value(&mut self, i: usize, value: V)
        requires
            old(self).wf(),
            i < old(self).order().len(),
        ensures
            final(self).wf(),
            final(self)@ == old(self)@.insert(old(self).order()[i as int].0.id(), value),
            final(self).order() == old(self).order().update(
                i as int,
                (old(self).order()[i as int].0, value),
            ),
    {
        let ghost before = self.entries@;
        let key = self.entries[i].0.again();
        self.entries.set(i, (key, value));
        proof {
            assert(entry_ids(self.entries@) =~= entry_ids(before));
            lemma_table_view(*old(self), *self, i as int, value);
        }
    }

    /// Gives `key` the value `value`; a key already there keeps its spelling.
    pub fn insert(&mut self, key: K, value: V)
        requires
            old(self).wf(),
        ensures
            final(self).wf(),
            final(self)@ == old(self)@.insert(key.id(), value),
            !old(self)@.dom().contains(key.id()) ==> final(self).order() == old(
                self,
            ).order().push((key, value)),
            old(self)@.dom().contains(key.id()) ==> entry_ids(final(self).order()) == entry_ids(
                old(self).order(),
            ),
    {
        match self.find(&key) {
            Some(i) => {
                self.set_value(i, value);
                assert(entry_ids(self.order()) =~= entry_ids(old(self).order()));
            },
            None => {
                let ghost before = self.entries@;
                self.entries.push((key, value));
                proof {
                    let s = entry_ids(before);
                    let t = entry_ids(self.entries@);
                    assert(t =~= s.push(key.id()));
                    assert(t.no_duplicates());
                    assert forall|x: K::Id| t.contains(x) == (s.contains(x) || x == key.id()) by {
                        if s.contains(x) {
                            let k = choose|k: int| 0 <= k < s.len() && s[k] == x;
                            assert(t[k] == x);
                        }
                        assert(t[s.len() as int] == key.id());
                    }
                    assert forall|x: K::Id| #[trigger] t.contains(x) implies self@[x] == old(
                        self,
                    )@.insert(key.id(), value)[x] by {
                        let k = t.index_of(x);
                        assert(t[k] == x);
                        if k < s.len() {
                            assert(s[k] == x);
                            assert(s.index_of(x) == k);
                        }
                    }
                    assert(self@ =~= old(self)@.insert(key.id(), value));
                }
            },
        }
    }

    /// Takes the `i`-th entry out.
    pub fn remove_at(&mut self, i: usize) -> (r: (K, V))
        requires
            old(self).wf(),
            i < old(self).order().len(),
        ensures
            final(self).wf(),
            r == old(self).order()[i as int],
            final(self)@ == old(self)@.remove(r.0.id()),
            final(self).order() == old(self).order().remove(i as int),
    {
        let ghost before = self.entries@;
        let r = self.entries.remove(i);
        proof {
            let s = entry_ids(before);
            let t = entry_ids(self.entries@);
            assert(t =~= s.remove(i as int));
            lemma_remove_at(s, i as int);
            assert(s[i as int] == r.0.id());
            assert forall|x: K::Id| t.contains(x) == (s.contains(x) && x != r.0.id()) by {
                assert(t.to_set().contains(x) == s.to_set().remove(s[i as int]).contains(x));
            }
            assert forall|x: K::Id| #[trigger] t.contains(x) implies self@[x] == old(self)@[x] by {
                let k = t.index_of(x);
                assert(t[k] == x);
                let j = if k < i { k } else { k + 1 };
                assert(s[j] == x);
                assert(s.index_of(x) == j);
            }
            assert(self@ =~= old(self)@.remove(r.0.id()));
        }
        r
    }

    /// Takes the entry of `key` out.
    pub fn remove(&mut self, key: &K) -> (r: Option<V>)
        requires
            old(self).wf(),
        ensures
            final(self).wf(),
            final(self)@ == old(self)@.remove(key.id()),
            match r {
                Some(v) => old(self)@.dom().contains(key.id()) && old(self)@[key.id()] == v,
                None => !old(self)@.dom().contains(key.id()),
            },
            final(self).order() == without(old(self).order(), key.id()),
    {
        match self.find(key) {
            Some(i) => {
                proof {
                    let s = entry_ids(self.order());
                    assert(s[i as int] == key.id());
                    assert(s.contains(key.id()));
                    assert(s.index_of(key.id()) == i);
                }
                let e = self.remove_at(i);
                Some(e.1)
            },
            None => {
                assert(self@.remove(key.id()) =~= self@);
                proof {
                    self.lemma_order();
                    assert(entry_ids(self.order()).to_set().contains(key.id()) == entry_ids(
                        self.order(),
                    ).contains(key.id()));
                }
                None
            },
        }
    }
}

proof fn lemma_table_view<K: Key, V>(before: Table<K, V>, after: Table<K, V>, i: int, value: V)
    requires
        before.wf(),
        0 <= i < before.entries@.len(),
        after.entries@ == before.entries@.update(i, (before.entries@[i].0, value)),
        entry_ids(after.entries@) == entry_ids(before.entries@),
    ensures
        after@ == before@.insert(before.entries@[i].0.id(), value),
{
    let s = entry_ids(before.entries@);
    assert(s[i] == before.entries@[i].0.id());
    assert forall|x: K::Id| #[trigger] s.contains(x) implies after@[x] == before@.insert(
        s[i],
        value,
    )[x] by {
        let k = s.index_of(x);
        assert(s[k] == x);
        if x == s[i] {
            assert(k == i);
        }
    }
    assert(after@ =~= before@.insert(s[i], value));
}

} // verus!
