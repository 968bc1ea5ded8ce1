//! A map keyed by strings, kept as a vector of entries with distinct keys.

use vstd::prelude::*;

verus! {

/// Entries keyed by string; each key occurs once, in the order of its first
/// insertion.
#[derive(Debug)]
pub struct StrMap<V> {
    entries: Vec<(String, V)>,
}

impl<V> View for StrMap<V> {
    type V = Map<Seq<char>, V>;

    /// Each key maps to the value stored beside it.
    closed spec fn view(&self) -> Map<Seq<char>, V> {
        Map::new(
            |k: Seq<char>| self.key_seq().contains(k),
            |k: Seq<char>| self.value_seq()[self.key_seq().index_of(k)],
        )
    }
}

/// In a sequence without repeats, the position found for an element is the
/// one it stands at.
pub proof fn lemma_index_of_distinct<A>(s: Seq<A>, i: int)
    requires
        s.no_duplicates(),
        0 <= i < s.len(),
    ensures
        s.index_of(s[i]) == i,
{
    assert(s.contains(s[i]));
}

impl<V> StrMap<V> {
    /// The keys, in entry order.
    pub closed spec fn key_seq(&self) -> Seq<Seq<char>> {
        self.entries@.map_values(|e: (String, V)| e.0@)
    }

    /// The values, in entry order.
    pub closed spec fn value_seq(&self) -> Seq<V> {
        self.entries@.map_values(|e: (String, V)| e.1)
    }

    /// Each key occurs in one entry only.
    pub open spec fn wf(&self) -> bool {
        self.key_seq().no_duplicates()
    }

    /// The entry at position `i` is what the map holds for its key.
    pub proof fn lemma_entry(&self, i: int)
        requires
            self.wf(),
            0 <= i < self.key_seq().len(),
        ensures
            self@.contains_key(self.key_seq()[i]),
            self@[self.key_seq()[i]] == self.value_seq()[i],
            self.key_seq().index_of(self.key_seq()[i]) == i,
    {
        let ks = self.key_seq();
        assert(ks.contains(ks[i]));
    }

    /// The keys of the map are exactly the keys of the entries, one per entry.
    pub proof fn lemma_domain(&self)
        requires
            self.wf(),
        ensures
            self@.dom() == self.key_seq().to_set(),
            self@.dom().finite(),
            self@.dom().len() == self.key_seq().len(),
    {
        assert(self@.dom() =~= self.key_seq().to_set());
        self.key_seq().unique_seq_to_set();
    }

    /// An empty map.
    pub fn new() -> (r: Self)
        ensures
            r.wf(),
            r@ == Map::<Seq<char>, V>::empty(),
            r.key_seq() == Seq::<Seq<char>>::empty(),
    {
        let r = StrMap { entries: Vec::new() };
        assert(r@ =~= Map::<Seq<char>, V>::empty());
        r
    }

    /// The number of keys.
    pub fn len(&self) -> (r: usize)
        requires
            self.wf(),
        ensures
            r == self@.len(),
            r == self.key_seq().len(),
    {
        proof {
            self.lemma_domain();
        }
        self.entries.len()
    }

    /// The position of `key` among the entries, if it is there.
    pub fn find(&self, key: &String) -> (r: Option<usize>)
        ensures
            match r {
                Some(i) => i < self.key_seq().len() && self.key_seq()[i as int] == key@,
                None => !self.key_seq().contains(key@),
            },
            r is Some <==> self@.contains_key(key@),
    {
        let mut i: usize = 0;
        while i < self.entries.len()
            invariant
                i <= self.entries.len(),
                forall|j: int| 0 <= j < i ==> self.key_seq()[j] != key@,
            decreases self.entries.len() - i,
        {
            if self.entries[i].0 == *key {
                return Some(i);
            }
            i = i + 1;
        }
        None
    }

    /// Whether `key` has a value.
    pub fn contains_key(&self, key: &str) -> (r: bool)
        ensures
            r == self@.contains_key(key@),
    {
        let k = String::from_str(key);
        self.find(&k).is_some()
    }

    /// The value stored for `key`.
    pub fn get(&self, key: &str) -> (r: Option<&V>)
        requires
            self.wf(),
        ensures
            match r {
                Some(v) => self@.contains_key(key@) && *v == self@[key@],
                None => !self@.contains_key(key@),
            },
    {
        let k = String::from_str(key);
        match self.find(&k) {
            Some(i) => {
                proof {
                    self.lemma_entry(i as int);
                }
                Some(&self.entries[i].1)
            },
            None => None,
        }
    }

    /// The key of the entry at position `i`.
    pub fn key_at(&self, i: usize) -> (r: &String)
        requires
            i < self.key_seq().len(),
        ensures
            r@ == self.key_seq()[i as int],
    {
        &self.entries[i].0
    }

    /// The value of the entry at position `i`.
    pub fn value_at(&self, i: usize) -> (r: &V)
        requires
            i < self.key_seq().len(),
        ensures
            *r == self.value_seq()[i as int],
    {
        &self.entries[i].1
    }

    /// Sets the value of `key`, keeping its position if it was there already,
    /// and returns the value it replaced.
    pub fn insert(&mut self, key: String, value: V) -> (r: Option<V>)
        requires
            old(self).wf(),
        ensures
            final(self).wf(),
            final(self)@ == old(self)@.insert(key@, value),
            match r {
                Some(v) => old(self)@.contains_key(key@) && v == old(self)@[key@],
                None => !old(self)@.contains_key(key@),
            },
    {
        let ghost before = *self;
        match self.find(&key) {
            Some(i) => {
                let mut pair = (key, value);
                self.entries.set_and_swap(i, &mut pair);
                proof {
                    before.lemma_entry(i as int);
                    assert(self.key_seq() =~= before.key_seq());
                    assert forall|j: int| 0 <= j < self.key_seq().len() implies self.value_seq()[j]
                        == (if j == i { value } else { before.value_seq()[j] }) by {}
                    assert(self@ =~= before@.insert(key@, value));
                }
                Some(pair.1)
            },
            None => {
                self.entries.push((key, value));
                proof {
                    assert(self.key_seq() =~= before.key_seq().push(key@));
                    assert(self.value_seq() =~= before.value_seq().push(value));
                    let n = before.key_seq().len() as int;
                    assert(self.key_seq()[n] == key@);
                    assert(self.key_seq().no_duplicates());
                    assert forall|k: Seq<char>| #[trigger] self@.contains_key(k) implies self@[k]
                        == before@.insert(key@, value)[k] by {
                        let j = self.key_seq().index_of(k);
                        lemma_index_of_distinct(self.key_seq(), j);
                        if k != key@ {
                            before.lemma_entry(j);
                        }
                    }
                    assert forall|k: Seq<char>| #[trigger] before@.contains_key(k) implies self@.contains_key(k) by {
                        let j = before.key_seq().index_of(k);
                        assert(self.key_seq()[j] == k);
                    }
                    assert(self@.contains_key(key@));
                    assert forall|k: Seq<char>| #[trigger] self@.contains_key(k) && k != key@ implies before@.contains_key(k) by {
                        let j = self.key_seq().index_of(k);
                        assert(before.key_seq()[j] == k);
                    }
                    assert(self@ =~= before@.insert(key@, value));
                }
                None
            },
        }
    }
}

} // verus!
