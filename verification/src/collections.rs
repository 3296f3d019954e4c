//! Association maps with deterministic iteration order.
//!
//! Both maps keep their entries in insertion order in a vector, with the
//! invariant that keys are unique.  Their mathematical view is a `Map` from
//! the key's value (a `Seq<char>` for strings, a `u64` for ids) to the stored
//! value.

use vstd::prelude::*;

verus! {

/// The map denoted by an association sequence: later entries win.
pub open spec fn assoc_map<V>(s: Seq<(Seq<char>, V)>) -> Map<Seq<char>, V>
    decreases s.len(),
{
    if s.len() == 0 {
        Map::empty()
    } else {
        assoc_map(s.drop_last()).insert(s.last().0, s.last().1)
    }
}

pub open spec fn distinct_keys<V>(s: Seq<(Seq<char>, V)>) -> bool {
    forall|i: int, j: int| 0 <= i < j < s.len() ==> s[i].0 != s[j].0
}

pub proof fn lemma_assoc_contains_iff<V>(s: Seq<(Seq<char>, V)>, k: Seq<char>)
    ensures
        assoc_map(s).contains_key(k) <==> exists|i: int| 0 <= i < s.len() && s[i].0 == k,
    decreases s.len(),
{
    if s.len() == 0 {
    } else {
        lemma_assoc_contains_iff(s.drop_last(), k);
        if s.last().0 == k {
            assert(s[s.len() - 1].0 == k);
        } else {
            if assoc_map(s).contains_key(k) {
                let i = choose|i: int| 0 <= i < s.drop_last().len() && s.drop_last()[i].0 == k;
                assert(s[i].0 == k);
            }
            if exists|i: int| 0 <= i < s.len() && s[i].0 == k {
                let i = choose|i: int| 0 <= i < s.len() && s[i].0 == k;
                assert(i < s.len() - 1);
                assert(s.drop_last()[i].0 == k);
            }
        }
    }
}

pub proof fn lemma_assoc_index<V>(s: Seq<(Seq<char>, V)>, i: int)
    requires
        distinct_keys(s),
        0 <= i < s.len(),
    ensures
        assoc_map(s).contains_key(s[i].0),
        assoc_map(s)[s[i].0] == s[i].1,
    decreases s.len(),
{
    if i == s.len() - 1 {
    } else {
        assert(distinct_keys(s.drop_last()));
        lemma_assoc_index(s.drop_last(), i);
        assert(s.drop_last()[i] == s[i]);
        assert(s[i].0 != s.last().0);
    }
}

pub proof fn lemma_assoc_dom_len<V>(s: Seq<(Seq<char>, V)>)
    requires
        distinct_keys(s),
    ensures
        assoc_map(s).dom().finite(),
        assoc_map(s).dom().len() == s.len(),
    decreases s.len(),
{
    if s.len() == 0 {
        assert(assoc_map(s).dom() =~= Set::<Seq<char>>::empty());
    } else {
        assert(distinct_keys(s.drop_last()));
        lemma_assoc_dom_len(s.drop_last());
        lemma_assoc_contains_iff(s.drop_last(), s.last().0);
        assert(forall|i: int|
            0 <= i < s.drop_last().len() ==> s.drop_last()[i] == s[i]);
        assert(!assoc_map(s.drop_last()).contains_key(s.last().0));
    }
}

proof fn lemma_assoc_update<V>(s: Seq<(Seq<char>, V)>, i: int, v: V)
    requires
        distinct_keys(s),
        0 <= i < s.len(),
    ensures
        assoc_map(s.update(i, (s[i].0, v))) == assoc_map(s).insert(s[i].0, v),
    decreases s.len(),
{
    let t = s.update(i, (s[i].0, v));
    if i == s.len() - 1 {
        assert(t.drop_last() =~= s.drop_last());
        assert(t.last() == (s[i].0, v));
        assert(assoc_map(t) =~= assoc_map(s).insert(s[i].0, v));
    } else {
        assert(distinct_keys(s.drop_last()));
        lemma_assoc_update(s.drop_last(), i, v);
        assert(t.drop_last() =~= s.drop_last().update(i, (s[i].0, v)));
        assert(t.last() == s.last());
        assert(s[i].0 != s.last().0);
        assert(assoc_map(t) =~= assoc_map(s).insert(s[i].0, v));
    }
}

proof fn lemma_assoc_remove_at<V>(s: Seq<(Seq<char>, V)>, i: int)
    requires
        distinct_keys(s),
        0 <= i < s.len(),
    ensures
        assoc_map(s.remove(i)) == assoc_map(s).remove(s[i].0),
    decreases s.len(),
{
    let t = s.remove(i);
    if i == s.len() - 1 {
        assert(t =~= s.drop_last());
        lemma_assoc_contains_iff(s.drop_last(), s.last().0);
        assert(!assoc_map(s.drop_last()).contains_key(s.last().0));
        assert(assoc_map(t) =~= assoc_map(s).remove(s[i].0));
    } else {
        assert(distinct_keys(s.drop_last()));
        lemma_assoc_remove_at(s.drop_last(), i);
        assert(t.drop_last() =~= s.drop_last().remove(i));
        assert(t.last() == s.last());
        assert(s[i].0 != s.last().0);
        assert(assoc_map(t) =~= assoc_map(s).remove(s[i].0));
    }
}

/// Association map from strings to values, keeping insertion order.
#[derive(Debug)]
pub struct StrMap<V> {
    entries: Vec<(String, V)>,
}

impl<V> StrMap<V> {
    /// The entries as (key view, value) pairs, in insertion order.
    pub closed spec fn kvs(&self) -> Seq<(Seq<char>, V)> {
        self.entries@.map_values(|e: (String, V)| (e.0@, e.1))
    }

    /// Well-formedness: keys are unique.  Constructors establish it and
    /// methods preserve it.
    pub open spec fn wf(&self) -> bool {
        distinct_keys(self.kvs())
    }

    pub proof fn lemma_props(&self)
        requires
            self.wf(),
        ensures
            distinct_keys(self.kvs()),
            self@ == assoc_map(self.kvs()),
            self@.dom().finite(),
            self@.dom().len() == self.kvs().len(),
            forall|i: int|
                0 <= i < self.kvs().len() ==> self@.contains_key(#[trigger] self.kvs()[i].0)
                    && self@[self.kvs()[i].0] == self.kvs()[i].1,
            forall|k: Seq<char>|
                self@.contains_key(k) ==> exists|i: int|
                    0 <= i < self.kvs().len() && self.kvs()[i].0 == k,
    {
        lemma_assoc_dom_len(self.kvs());
        assert forall|i: int| 0 <= i < self.kvs().len() implies self@.contains_key(
            #[trigger] self.kvs()[i].0,
        ) && self@[self.kvs()[i].0] == self.kvs()[i].1 by {
            lemma_assoc_index(self.kvs(), i);
        }
        assert forall|k: Seq<char>| self@.contains_key(k) implies exists|i: int|
            0 <= i < self.kvs().len() && self.kvs()[i].0 == k by {
            lemma_assoc_contains_iff(self.kvs(), k);
        }
    }

    pub fn new() -> (r: Self)
        ensures
            r.wf(),
            r@ == Map::<Seq<char>, V>::empty(),
            r.kvs() == Seq::<(Seq<char>, V)>::empty(),
    {
        let r = StrMap { entries: Vec::new() };
        proof {
            assert(r.kvs() =~= Seq::<(Seq<char>, V)>::empty());
        }
        r
    }

    pub fn len(&self) -> (r: usize)
        requires
            self.wf(),
        ensures
            r == self.kvs().len(),
            r == self@.dom().len(),
    {
        proof {
            self.lemma_props();
        }
        self.entries.len()
    }

    /// Number of entries, with nothing assumed of the map.
    pub fn len_raw(&self) -> (r: usize)
        ensures
            r == self.kvs().len(),
    {
        self.entries.len()
    }

    pub fn is_empty(&self) -> (r: bool)
        requires
            self.wf(),
        ensures
            r <==> self@ == Map::<Seq<char>, V>::empty(),
    {
        proof {
            self.lemma_props();
            if self.kvs().len() == 0 {
                assert(self@ =~= Map::<Seq<char>, V>::empty());
            } else {
                lemma_assoc_index(self.kvs(), 0);
            }
        }
        self.entries.len() == 0
    }

    /// The key of the entry at position `i` in insertion order.
    pub fn key_at(&self, i: usize) -> (r: &String)
        requires
            i < self.kvs().len(),
        ensures
            r@ == self.kvs()[i as int].0,
    {
        &self.entries[i].0
    }

    /// The value of the entry at position `i` in insertion order.
    pub fn value_at(&self, i: usize) -> (r: &V)
        requires
            i < self.kvs().len(),
        ensures
            *r == self.kvs()[i as int].1,
    {
        &self.entries[i].1
    }

    fn index_of(&self, key: &String) -> (r: Option<usize>)
        ensures
            match r {
                Some(i) => i < self.kvs().len() && self.kvs()[i as int].0 == key@,
                None => forall|i: int| 0 <= i < self.kvs().len() ==> self.kvs()[i].0 != key@,
            },
    {
        let n = self.entries.len();
        let mut i: usize = 0;
        while i < n
            invariant
                n == self.kvs().len(),
                i <= n,
                forall|j: int| 0 <= j < i ==> self.kvs()[j].0 != key@,
            decreases n - i,
        {
            if self.entries[i].0 == *key {
                return Some(i);
            }
            i += 1;
        }
        None
    }

    pub fn contains_key(&self, key: &str) -> (r: bool)
        requires
            self.wf(),
        ensures
            r == self@.contains_key(key@),
    {
        let k = key.to_owned();
        proof {
            self.lemma_props();
            lemma_assoc_contains_iff(self.kvs(), key@);
        }
        self.index_of(&k).is_some()
    }

    pub fn get<'a>(&'a self, key: &str) -> (r: Option<&'a V>)
        requires
            self.wf(),
        ensures
            match r {
                Some(v) => self@.contains_key(key@) && *v == self@[key@],
                None => !self@.contains_key(key@),
            },
    {
        let k = key.to_owned();
        proof {
            self.lemma_props();
            lemma_assoc_contains_iff(self.kvs(), key@);
        }
        match self.index_of(&k) {
            Some(i) => Some(&self.entries[i].1),
            None => None,
        }
    }

    pub fn insert(&mut self, key: String, value: V)
        requires
            old(self).wf(),
        ensures
            final(self).wf(),
            final(self)@ == old(self)@.insert(key@, value),
            old(self)@.contains_key(key@) ==> final(self).kvs().len() == old(self).kvs().len(),
            !old(self)@.contains_key(key@) ==> final(self).kvs() == old(self).kvs().push(
                (key@, value),
            ),
    {
        proof {
            self.lemma_props();
            lemma_assoc_contains_iff(self.kvs(), key@);
        }
        let ghost old_kvs = self.kvs();
        match self.index_of(&key) {
            Some(i) => {
                self.entries[i] = (key, value);
                proof {
                    assert(self.kvs() =~= old_kvs.update(i as int, (old_kvs[i as int].0, value)));
                    lemma_assoc_update(old_kvs, i as int, value);
                    assert(distinct_keys(self.kvs()));
                    assert(self@ == assoc_map(old_kvs).insert(key@, value));
                }
            },
            None => {
                self.entries.push((key, value));
                proof {
                    assert(self.kvs() =~= old_kvs.push((key@, value)));
                    assert(distinct_keys(self.kvs()));
                    assert(old_kvs.push((key@, value)).drop_last() =~= old_kvs);
                    assert(assoc_map(old_kvs.push((key@, value))) == assoc_map(old_kvs).insert(
                        key@,
                        value,
                    ));
                }
            },
        }
    }

    pub fn remove(&mut self, key: &str) -> (r: Option<V>)
        requires
            old(self).wf(),
        ensures
            final(self).wf(),
            final(self)@ == old(self)@.remove(key@),
            r is None ==> *final(self) == *old(self),
            r is Some <==> old(self)@.contains_key(key@),
            match r {
                Some(v) => old(self)@.contains_key(key@) && v == old(self)@[key@],
                None => !old(self)@.contains_key(key@),
            },
    {
        let k = key.to_owned();
        proof {
            self.lemma_props();
            lemma_assoc_contains_iff(self.kvs(), key@);
        }
        let ghost old_kvs = self.kvs();
        match self.index_of(&k) {
            Some(i) => {
                proof {
                    lemma_assoc_index(old_kvs, i as int);
                    lemma_assoc_remove_at(old_kvs, i as int);
                }
                let e = self.entries.remove(i);
                proof {
                    assert(self.kvs() =~= old_kvs.remove(i as int));
                    assert(distinct_keys(self.kvs()));
                }
                Some(e.1)
            },
            None => {
                proof {
                    assert(final(self)@ =~= old(self)@.remove(key@));
                }
                None
            },
        }
    }
}

/// Association map from 64-bit ids to values, keeping insertion order.
#[derive(Debug)]
pub struct IdMap<V> {
    entries: Vec<(u64, V)>,
}

/// The map denoted by an id association sequence: later entries win.
pub open spec fn id_assoc_map<V>(s: Seq<(u64, V)>) -> Map<u64, V>
    decreases s.len(),
{
    if s.len() == 0 {
        Map::empty()
    } else {
        id_assoc_map(s.drop_last()).insert(s.last().0, s.last().1)
    }
}

pub open spec fn distinct_ids<V>(s: Seq<(u64, V)>) -> bool {
    forall|i: int, j: int| 0 <= i < j < s.len() ==> s[i].0 != s[j].0
}

pub proof fn lemma_id_assoc_contains_iff<V>(s: Seq<(u64, V)>, k: u64)
    ensures
        id_assoc_map(s).contains_key(k) <==> exists|i: int| 0 <= i < s.len() && s[i].0 == k,
    decreases s.len(),
{
    if s.len() == 0 {
    } else {
        lemma_id_assoc_contains_iff(s.drop_last(), k);
        if s.last().0 == k {
            assert(s[s.len() - 1].0 == k);
        } else {
            if id_assoc_map(s).contains_key(k) {
                let i = choose|i: int| 0 <= i < s.drop_last().len() && s.drop_last()[i].0 == k;
                assert(s[i].0 == k);
            }
            if exists|i: int| 0 <= i < s.len() && s[i].0 == k {
                let i = choose|i: int| 0 <= i < s.len() && s[i].0 == k;
                assert(i < s.len() - 1);
                assert(s.drop_last()[i].0 == k);
            }
        }
    }
}

pub proof fn lemma_id_assoc_index<V>(s: Seq<(u64, V)>, i: int)
    requires
        distinct_ids(s),
        0 <= i < s.len(),
    ensures
        id_assoc_map(s).contains_key(s[i].0),
        id_assoc_map(s)[s[i].0] == s[i].1,
    decreases s.len(),
{
    if i == s.len() - 1 {
    } else {
        assert(distinct_ids(s.drop_last()));
        lemma_id_assoc_index(s.drop_last(), i);
        assert(s.drop_last()[i] == s[i]);
        assert(s[i].0 != s.last().0);
    }
}

pub proof fn lemma_id_assoc_dom_len<V>(s: Seq<(u64, V)>)
    requires
        distinct_ids(s),
    ensures
        id_assoc_map(s).dom().finite(),
        id_assoc_map(s).dom().len() == s.len(),
    decreases s.len(),
{
    if s.len() == 0 {
        assert(id_assoc_map(s).dom() =~= Set::<u64>::empty());
    } else {
        assert(distinct_ids(s.drop_last()));
        lemma_id_assoc_dom_len(s.drop_last());
        lemma_id_assoc_contains_iff(s.drop_last(), s.last().0);
        assert(forall|i: int|
            0 <= i < s.drop_last().len() ==> s.drop_last()[i] == s[i]);
        assert(!id_assoc_map(s.drop_last()).contains_key(s.last().0));
    }
}

proof fn lemma_id_assoc_update<V>(s: Seq<(u64, V)>, i: int, v: V)
    requires
        distinct_ids(s),
        0 <= i < s.len(),
    ensures
        id_assoc_map(s.update(i, (s[i].0, v))) == id_assoc_map(s).insert(s[i].0, v),
    decreases s.len(),
{
    let t = s.update(i, (s[i].0, v));
    if i == s.len() - 1 {
        assert(t.drop_last() =~= s.drop_last());
        assert(t.last() == (s[i].0, v));
        assert(id_assoc_map(t) =~= id_assoc_map(s).insert(s[i].0, v));
    } else {
        assert(distinct_ids(s.drop_last()));
        lemma_id_assoc_update(s.drop_last(), i, v);
        assert(t.drop_last() =~= s.drop_last().update(i, (s[i].0, v)));
        assert(t.last() == s.last());
        assert(s[i].0 != s.last().0);
        assert(id_assoc_map(t) =~= id_assoc_map(s).insert(s[i].0, v));
    }
}

proof fn lemma_id_assoc_remove_at<V>(s: Seq<(u64, V)>, i: int)
    requires
        distinct_ids(s),
        0 <= i < s.len(),
    ensures
        id_assoc_map(s.remove(i)) == id_assoc_map(s).remove(s[i].0),
    decreases s.len(),
{
    let t = s.remove(i);
    if i == s.len() - 1 {
        assert(t =~= s.drop_last());
        lemma_id_assoc_contains_iff(s.drop_last(), s.last().0);
        assert(!id_assoc_map(s.drop_last()).contains_key(s.last().0));
        assert(id_assoc_map(t) =~= id_assoc_map(s).remove(s[i].0));
    } else {
        assert(distinct_ids(s.drop_last()));
        lemma_id_assoc_remove_at(s.drop_last(), i);
        assert(t.drop_last() =~= s.drop_last().remove(i));
        assert(t.last() == s.last());
        assert(s[i].0 != s.last().0);
        assert(id_assoc_map(t) =~= id_assoc_map(s).remove(s[i].0));
    }
}

impl<V> IdMap<V> {
    /// The entries as (id, value) pairs, in insertion order.
    pub closed spec fn kvs(&self) -> Seq<(u64, V)> {
        self.entries@
    }

    /// Well-formedness: keys are unique.  Constructors establish it and
    /// methods preserve it.
    pub open spec fn wf(&self) -> bool {
        distinct_ids(self.kvs())
    }

    pub proof fn lemma_props(&self)
        requires
            self.wf(),
        ensures
            distinct_ids(self.kvs()),
            self@ == id_assoc_map(self.kvs()),
            self@.dom().finite(),
            self@.dom().len() == self.kvs().len(),
            forall|i: int|
                0 <= i < self.kvs().len() ==> self@.contains_key(#[trigger] self.kvs()[i].0)
                    && self@[self.kvs()[i].0] == self.kvs()[i].1,
            forall|k: u64|
                self@.contains_key(k) ==> exists|i: int|
                    0 <= i < self.kvs().len() && self.kvs()[i].0 == k,
    {
        lemma_id_assoc_dom_len(self.kvs());
        assert forall|i: int| 0 <= i < self.kvs().len() implies self@.contains_key(
            #[trigger] self.kvs()[i].0,
        ) && self@[self.kvs()[i].0] == self.kvs()[i].1 by {
            lemma_id_assoc_index(self.kvs(), i);
        }
        assert forall|k: u64| self@.contains_key(k) implies exists|i: int|
            0 <= i < self.kvs().len() && self.kvs()[i].0 == k by {
            lemma_id_assoc_contains_iff(self.kvs(), k);
        }
    }

    pub fn new() -> (r: Self)
        ensures
            r.wf(),
            r@ == Map::<u64, V>::empty(),
            r.kvs() == Seq::<(u64, V)>::empty(),
    {
        let r = IdMap { entries: Vec::new() };
        proof {
            assert(r.kvs() =~= Seq::<(u64, V)>::empty());
        }
        r
    }

    pub fn len(&self) -> (r: usize)
        requires
            self.wf(),
        ensures
            r == self.kvs().len(),
            r == self@.dom().len(),
    {
        proof {
            self.lemma_props();
        }
        self.entries.len()
    }

    /// The id of the entry at position `i` in insertion order.
    pub fn key_at(&self, i: usize) -> (r: u64)
        requires
            i < self.kvs().len(),
        ensures
            r == self.kvs()[i as int].0,
    {
        self.entries[i].0
    }

    /// The value of the entry at position `i` in insertion order.
    pub fn value_at(&self, i: usize) -> (r: &V)
        requires
            i < self.kvs().len(),
        ensures
            *r == self.kvs()[i as int].1,
    {
        &self.entries[i].1
    }

    fn index_of(&self, key: u64) -> (r: Option<usize>)
        ensures
            match r {
                Some(i) => i < self.kvs().len() && self.kvs()[i as int].0 == key,
                None => forall|i: int| 0 <= i < self.kvs().len() ==> self.kvs()[i].0 != key,
            },
    {
        let n = self.entries.len();
        let mut i: usize = 0;
        while i < n
            invariant
                n == self.kvs().len(),
                i <= n,
                forall|j: int| 0 <= j < i ==> self.kvs()[j].0 != key,
            decreases n - i,
        {
            if self.entries[i].0 == key {
                return Some(i);
            }
            i += 1;
        }
        None
    }

    pub fn contains_key(&self, key: u64) -> (r: bool)
        requires
            self.wf(),
        ensures
            r == self@.contains_key(key),
    {
        proof {
            self.lemma_props();
            lemma_id_assoc_contains_iff(self.kvs(), key);
        }
        self.index_of(key).is_some()
    }

    pub fn get<'a>(&'a self, key: u64) -> (r: Option<&'a V>)
        requires
            self.wf(),
        ensures
            match r {
                Some(v) => self@.contains_key(key) && *v == self@[key],
                None => !self@.contains_key(key),
            },
    {
        proof {
            self.lemma_props();
            lemma_id_assoc_contains_iff(self.kvs(), key);
        }
        match self.index_of(key) {
            Some(i) => Some(&self.entries[i].1),
            None => None,
        }
    }

    pub fn insert(&mut self, key: u64, value: V)
        requires
            old(self).wf(),
        ensures
            final(self).wf(),
            final(self)@ == old(self)@.insert(key, value),
            old(self)@.contains_key(key) ==> final(self).kvs().len() == old(self).kvs().len(),
            !old(self)@.contains_key(key) ==> final(self).kvs() == old(self).kvs().push(
                (key, value),
            ),
    {
        proof {
            self.lemma_props();
            lemma_id_assoc_contains_iff(self.kvs(), key);
        }
        let ghost old_kvs = self.kvs();
        match self.index_of(key) {
            Some(i) => {
                self.entries[i] = (key, value);
                proof {
                    assert(self.kvs() =~= old_kvs.update(i as int, (old_kvs[i as int].0, value)));
                    lemma_id_assoc_update(old_kvs, i as int, value);
                    assert(distinct_ids(self.kvs()));
                    assert(self@ == id_assoc_map(old_kvs).insert(key, value));
                }
            },
            None => {
                self.entries.push((key, value));
                proof {
                    assert(self.kvs() =~= old_kvs.push((key, value)));
                    assert(distinct_ids(self.kvs()));
                    assert(old_kvs.push((key, value)).drop_last() =~= old_kvs);
                    assert(id_assoc_map(old_kvs.push((key, value))) == id_assoc_map(
                        old_kvs,
                    ).insert(key, value));
                }
            },
        }
    }

    pub fn remove(&mut self, key: u64) -> (r: Option<V>)
        requires
            old(self).wf(),
        ensures
            final(self).wf(),
            final(self)@ == old(self)@.remove(key),
            r is None ==> *final(self) == *old(self),
            r is Some <==> old(self)@.contains_key(key),
            match r {
                Some(v) => old(self)@.contains_key(key) && v == old(self)@[key],
                None => !old(self)@.contains_key(key),
            },
    {
        proof {
            self.lemma_props();
            lemma_id_assoc_contains_iff(self.kvs(), key);
        }
        let ghost old_kvs = self.kvs();
        match self.index_of(key) {
            Some(i) => {
                proof {
                    lemma_id_assoc_index(old_kvs, i as int);
                    lemma_id_assoc_remove_at(old_kvs, i as int);
                }
                let e = self.entries.remove(i);
                proof {
                    assert(self.kvs() =~= old_kvs.remove(i as int));
                    assert(distinct_ids(self.kvs()));
                }
                Some(e.1)
            },
            None => {
                proof {
                    assert(final(self)@ =~= old(self)@.remove(key));
                }
                None
            },
        }
    }
}

impl<V> View for StrMap<V> {
    type V = Map<Seq<char>, V>;

    open spec fn view(&self) -> Map<Seq<char>, V> {
        assoc_map(self.kvs())
    }
}

impl<V> View for IdMap<V> {
    type V = Map<u64, V>;

    open spec fn view(&self) -> Map<u64, V> {
        id_assoc_map(self.kvs())
    }
}

} // verus!
