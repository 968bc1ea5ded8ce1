//! A hash index from keys to their positions in a `StrMap`, so that a key is
//! found without scanning every entry.

use std::collections::HashMap;
use vstd::prelude::*;
use vstd::std_specs::iter::IteratorSpec;
use crate::str_map::StrMap;

verus! {

broadcast use vstd::std_specs::hash::group_hash_axioms;

/// A polynomial hash of the characters of `s`, modulo 2^64.
pub open spec fn id_hash_of(s: Seq<char>) -> u64
    decreases s.len(),
{
    if s.len() == 0 {
        0
    } else {
        let h = id_hash_of(s.drop_last());
        let scaled = ((h as nat * 31nat) % 0x1_0000_0000_0000_0000nat) as u64;
        ((scaled as nat + s.last() as u32 as nat) % 0x1_0000_0000_0000_0000nat) as u64
    }
}

/// The hash of `s`'s characters.
pub fn id_hash(s: &str) -> (r: u64)
    ensures
        r == id_hash_of(s@),
{
    broadcast use vstd::string::group_string_axioms;

    let mut h: u64 = 0;
    let mut it = s.chars();
    let ghost mut seen: Seq<char> = Seq::empty();
    loop
        invariant
            it.remaining() == s@.subrange(seen.len() as int, s@.len() as int),
            seen == s@.subrange(0, seen.len() as int),
            seen.len() <= s@.len(),
            h == id_hash_of(seen),
        ensures
            h == id_hash_of(s@),
        decreases s@.len() - seen.len(),
    {
        match it.next() {
            Some(c) => {
                proof {
                    assert(c == s@[seen.len() as int]);
                    let next = seen.push(c);
                    assert(next == s@.subrange(0, next.len() as int));
                    assert(next.drop_last() =~= seen);
                    seen = next;
                }
                let scaled = h.wrapping_mul(31);
                let code = c as u32 as u64;
                assert((scaled as nat) + (code as nat) < 0x2_0000_0000_0000_0000nat);
                h = scaled.wrapping_add(code);
            },
            None => {
                proof {
                    assert(seen =~= s@);
                }
                break ;
            },
        }
    }
    h
}

/// The positions of a map's keys, grouped by key hash.
pub struct IdIndex {
    buckets: HashMap<u64, Vec<usize>>,
}

impl IdIndex {
    /// Every position below the number of keys is filed under its key's
    /// hash, and only such positions are filed.
    pub closed spec fn indexes(&self, keys: Seq<Seq<char>>) -> bool {
        &&& forall|h: u64, m: int| #![trigger self.buckets@[h]@[m]]
            self.buckets@.contains_key(h) && 0 <= m < self.buckets@[h]@.len()
                ==> self.buckets@[h]@[m] < keys.len()
        &&& forall|i: int| #![trigger keys[i]]
            0 <= i < keys.len() ==> self.buckets@.contains_key(id_hash_of(keys[i]))
                && self.buckets@[id_hash_of(keys[i])]@.contains(i as usize)
    }

    /// Indexes the keys of `map`.
    pub fn build<V>(map: &StrMap<V>) -> (r: Self)
        requires
            map.wf(),
        ensures
            r.indexes(map.key_seq()),
    {
        let n = map.len();
        let mut buckets: HashMap<u64, Vec<usize>> = HashMap::new();
        let mut i: usize = 0;
        while i < n
            invariant
                n == map.key_seq().len(),
                i <= n,
                forall|h: u64, m: int| #![trigger buckets@[h]@[m]]
                    buckets@.contains_key(h) && 0 <= m < buckets@[h]@.len() ==> buckets@[h]@[m]
                        < i,
                forall|j: int| #![trigger map.key_seq()[j]]
                    0 <= j < i ==> buckets@.contains_key(id_hash_of(map.key_seq()[j]))
                        && buckets@[id_hash_of(map.key_seq()[j])]@.contains(j as usize),
            decreases n - i,
        {
            let h = id_hash(map.key_at(i).as_str());
            let ghost before = buckets@;
            let mut bucket: Vec<usize> = match buckets.remove(&h) {
                Some(b) => b,
                None => Vec::new(),
            };
            let ghost old_bucket = bucket@;
            bucket.push(i);
            let ghost new_bucket = bucket;
            buckets.insert(h, bucket);
            proof {
                assert(new_bucket@ == old_bucket.push(i));
                assert(buckets@ == before.remove(h).insert(h, new_bucket));
                assert(before.contains_key(h) ==> old_bucket == before[h]@);
                assert forall|h2: u64, m: int|
                    buckets@.contains_key(h2) && 0 <= m < buckets@[h2]@.len() implies #[trigger] buckets@[h2]@[m]
                        < i + 1 by {
                    if h2 == h {
                        if m < old_bucket.len() {
                            assert(before.contains_key(h));
                            assert(buckets@[h2]@[m] == before[h]@[m]);
                        }
                    } else {
                        assert(buckets@[h2] == before[h2]);
                    }
                }
                assert forall|j: int| #![trigger map.key_seq()[j]]
                    0 <= j < i + 1 implies buckets@.contains_key(id_hash_of(map.key_seq()[j]))
                        && buckets@[id_hash_of(map.key_seq()[j])]@.contains(j as usize) by {
                    let hj = id_hash_of(map.key_seq()[j]);
                    if j == i {
                        assert(buckets@[h]@[old_bucket.len() as int] == i);
                    } else if hj == h {
                        let k = choose|k: int|
                            0 <= k < before[h]@.len() && before[h]@[k] == j as usize;
                        assert(buckets@[h]@[k] == j as usize);
                    } else {
                        assert(buckets@[hj] == before[hj]);
                    }
                }
            }
            i = i + 1;
        }
        IdIndex { buckets }
    }

    /// The position of `key` among the entries of `map`, if it is there.
    pub fn find<V>(&self, map: &StrMap<V>, key: &String) -> (r: Option<usize>)
        requires
            map.wf(),
            self.indexes(map.key_seq()),
        ensures
            match r {
                Some(i) => i < map.key_seq().len() && map.key_seq()[i as int] == key@,
                None => !map.key_seq().contains(key@),
            },
    {
        let n = map.len();
        let h = id_hash(key.as_str());
        match self.buckets.get(&h) {
            Some(bucket) => {
                let mut m: usize = 0;
                while m < bucket.len()
                    invariant
                        n == map.key_seq().len(),
                        self.indexes(map.key_seq()),
                        self.buckets@.contains_key(h),
                        bucket@ == self.buckets@[h]@,
                        h == id_hash_of(key@),
                        m <= bucket@.len(),
                        forall|k: int| 0 <= k < m ==> map.key_seq()[bucket@[k] as int] != key@,
                    decreases bucket@.len() - m,
                {
                    let i = bucket[m];
                    assert(self.buckets@[h]@[m as int] < map.key_seq().len());
                    let found = map.key_at(i);
                    if *found == *key {
                        assert(map.key_seq()[i as int] == key@);
                        assert(i < map.key_seq().len());
                        return Some(i);
                    }
                    m = m + 1;
                }
                proof {
                    if map.key_seq().contains(key@) {
                        let j = choose|j: int|
                            0 <= j < map.key_seq().len() && map.key_seq()[j] == key@;
                        assert(bucket@.contains(j as usize));
                        let k = choose|k: int| 0 <= k < bucket@.len() && bucket@[k] == j as usize;
                        assert(map.key_seq()[bucket@[k] as int] != key@);
                    }
                }
                None
            },
            None => {
                proof {
                    if map.key_seq().contains(key@) {
                        let j = choose|j: int|
                            0 <= j < map.key_seq().len() && map.key_seq()[j] == key@;
                        assert(self.buckets@.contains_key(id_hash_of(map.key_seq()[j])));
                    }
                }
                None
            },
        }
    }
}

} // verus!
