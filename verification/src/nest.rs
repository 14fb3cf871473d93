//! The in-memory store: a mapping from key to record.

use vstd::prelude::*;
use crate::egg::{Egg, EggModel};

verus! {

/// The mapping a row of records stands for, later entries overriding
/// earlier ones with the same key.
pub open spec fn eggs_map(s: Seq<Egg>) -> Map<Seq<char>, EggModel>
    decreases s.len(),
{
    if s.len() == 0 {
        Map::empty()
    } else {
        eggs_map(s.drop_last()).insert(s.last()@.key, s.last()@)
    }
}

/// No two records of the row share a key.
pub open spec fn keys_distinct(s: Seq<Egg>) -> bool {
    forall|i: int, j: int| 0 <= i < j < s.len() ==> s[i]@.key != s[j]@.key
}

/// The in-memory store. It keeps one record per key; an insert for a
/// present key replaces the record wholesale.
pub struct Nest {
    eggs: Vec<Egg>,
}

impl View for Nest {
    type V = Map<Seq<char>, EggModel>;

    closed spec fn view(&self) -> Map<Seq<char>, EggModel> {
        eggs_map(self.eggs@)
    }
}

proof fn lemma_eggs_map_no_key(s: Seq<Egg>, k: Seq<char>)
    requires
        forall|i: int| 0 <= i < s.len() ==> s[i]@.key != k,
    ensures
        !eggs_map(s).contains_key(k),
    decreases s.len(),
{
    if s.len() > 0 {
        assert(forall|i: int| 0 <= i < s.len() - 1 ==> s.drop_last()[i] == s[i]);
        lemma_eggs_map_no_key(s.drop_last(), k);
    }
}

proof fn lemma_eggs_map_index(s: Seq<Egg>, i: int)
    requires
        keys_distinct(s),
        0 <= i < s.len(),
    ensures
        eggs_map(s).contains_key(s[i]@.key),
        eggs_map(s)[s[i]@.key] == s[i]@,
    decreases s.len(),
{
    assert(forall|x: int| 0 <= x < s.len() - 1 ==> s.drop_last()[x] == s[x]);
    if i == s.len() - 1 {
    } else {
        assert(keys_distinct(s.drop_last()));
        lemma_eggs_map_index(s.drop_last(), i);
        assert(s.last()@.key != s[i]@.key);
    }
}

proof fn lemma_eggs_map_update(s: Seq<Egg>, i: int, e: Egg)
    requires
        keys_distinct(s),
        0 <= i < s.len(),
        e@.key == s[i]@.key,
    ensures
        eggs_map(s.update(i, e)) =~= eggs_map(s).insert(e@.key, e@),
        keys_distinct(s.update(i, e)),
    decreases s.len(),
{
    assert(forall|x: int| 0 <= x < s.len() - 1 ==> s.drop_last()[x] == s[x]);
    let t = s.update(i, e);
    if i == s.len() - 1 {
        assert(t.drop_last() =~= s.drop_last());
        assert(t.last() == e);
    } else {
        assert(keys_distinct(s.drop_last()));
        lemma_eggs_map_update(s.drop_last(), i, e);
        assert(t.drop_last() =~= s.drop_last().update(i, e));
        assert(t.last() == s.last());
        assert(s.last()@.key != e@.key);
        assert(eggs_map(t) =~= eggs_map(s).insert(e@.key, e@));
    }
}

proof fn lemma_eggs_map_remove(s: Seq<Egg>, i: int)
    requires
        keys_distinct(s),
        0 <= i < s.len(),
    ensures
        eggs_map(s.remove(i)) =~= eggs_map(s).remove(s[i]@.key),
        keys_distinct(s.remove(i)),
    decreases s.len(),
{
    assert(forall|x: int| 0 <= x < s.len() - 1 ==> s.drop_last()[x] == s[x]);
    let t = s.remove(i);
    if i == s.len() - 1 {
        assert(t =~= s.drop_last());
        assert(forall|x: int| 0 <= x < s.len() - 1 ==> s[x]@.key != s[i]@.key);
        lemma_eggs_map_no_key(s.drop_last(), s.last()@.key);
        assert(eggs_map(t) =~= eggs_map(s).remove(s.last()@.key));
    } else {
        assert(keys_distinct(s.drop_last()));
        lemma_eggs_map_remove(s.drop_last(), i);
        assert(t.drop_last() =~= s.drop_last().remove(i));
        assert(t.last() == s.last());
        assert(s.last()@.key != s[i]@.key);
        assert(eggs_map(t) =~= eggs_map(s).remove(s[i]@.key));
    }
}

proof fn lemma_eggs_map_push(s: Seq<Egg>, e: Egg)
    requires
        keys_distinct(s),
        forall|i: int| 0 <= i < s.len() ==> s[i]@.key != e@.key,
    ensures
        eggs_map(s.push(e)) =~= eggs_map(s).insert(e@.key, e@),
        keys_distinct(s.push(e)),
{
    assert(s.push(e).drop_last() =~= s);
    assert(s.push(e).last() == e);
}

impl Nest {
    /// Whether the store is in shape: no key twice.
    pub closed spec fn wf(&self) -> bool {
        keys_distinct(self.eggs@)
    }

    /// An empty store.
    pub fn new() -> (r: Nest)
        ensures
            r.wf(),
            r@ == Map::<Seq<char>, EggModel>::empty(),
    {
        Nest { eggs: Vec::new() }
    }

    /// The position of the record that carries `key`, if one does.
    fn find_index(&self, key: &str) -> (r: Option<usize>)
        ensures
            match r {
                Some(i) => i < self.eggs@.len() && self.eggs@[i as int]@.key == key@,
                None => forall|i: int| 0 <= i < self.eggs@.len()
                    ==> self.eggs@[i]@.key != key@,
            },
    {
        let wanted = key.to_owned();
        let n = self.eggs.len();
        for i in 0..n
            invariant
                n == self.eggs@.len(),
                wanted@ == key@,
                forall|x: int| 0 <= x < i ==> self.eggs@[x]@.key != key@,
        {
            if self.eggs[i].key().eq(&wanted) {
                return Some(i);
            }
        }
        None
    }

    /// Store a record under its key, replacing any prior record there.
    pub fn set(&mut self, egg: Egg)
        requires
            old(self).wf(),
        ensures
            final(self).wf(),
            final(self)@ == old(self)@.insert(egg@.key, egg@),
    {
        let idx = self.find_index(egg.key().as_str());
        match idx {
            Some(i) => {
                proof {
                    lemma_eggs_map_update(self.eggs@, i as int, egg);
                }
                self.eggs.set(i, egg);
            },
            None => {
                proof {
                    lemma_eggs_map_push(self.eggs@, egg);
                }
                self.eggs.push(egg);
            },
        }
    }

    /// The record stored under `key`, if any.
    pub fn get(&self, key: &str) -> (r: Option<&Egg>)
        requires
            self.wf(),
        ensures
            match r {
                Some(e) => self@.contains_key(key@) && e@ == self@[key@],
                None => !self@.contains_key(key@),
            },
    {
        match self.find_index(key) {
            Some(i) => {
                proof {
                    lemma_eggs_map_index(self.eggs@, i as int);
                }
                Some(&self.eggs[i])
            },
            None => {
                proof {
                    lemma_eggs_map_no_key(self.eggs@, key@);
                }
                None
            },
        }
    }

    /// Drop the record stored under `key`; nothing happens when the
    /// key is absent.
    pub fn rem(&mut self, key: &str)
        requires
            old(self).wf(),
        ensures
            final(self).wf(),
            final(self)@ == old(self)@.remove(key@),
    {
        match self.find_index(key) {
            Some(i) => {
                proof {
                    lemma_eggs_map_remove(self.eggs@, i as int);
                }
                self.eggs.remove(i);
            },
            None => {
                proof {
                    lemma_eggs_map_no_key(self.eggs@, key@);
                    assert(self@ =~= self@.remove(key@));
                }
            },
        }
    }
}

impl Default for Nest {
    /// An empty store.
    fn default() -> (r: Self)
        ensures
            r.wf(),
            r@ == Map::<Seq<char>, EggModel>::empty(),
    {
        Nest::new()
    }
}

} // verus!
