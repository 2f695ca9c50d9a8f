//! The hash index: which entity first announced each content hash.
//! Keys are lowercased hashes; the first entity recorded for a hash keeps it.
use vstd::prelude::*;
use crate::text::{chars_of, range_equals, to_lowercase, unicode_lowercase};

verus! {

broadcast use vstd::std_specs::hash::group_hash_axioms;

/// FNV-1a over the code points of a key: the bucket a key lives in.
pub open spec fn key_hash(k: Seq<char>) -> u64
    decreases k.len(),
{
    if k.len() == 0 {
        0xcbf2_9ce4_8422_2325u64
    } else {
        vstd::wrapping::u64_specs::wrapping_mul(
            key_hash(k.drop_last()) ^ (k.last() as u64),
            0x0000_0100_0000_01b3u64,
        )
    }
}

/// The entity recorded for `k` in a bucket: that of its first entry for `k`.
pub open spec fn bucket_find(b: Seq<(Seq<char>, Seq<char>)>, k: Seq<char>) -> Option<Seq<char>>
    decreases b.len(),
{
    if b.len() == 0 {
        None
    } else {
        match bucket_find(b.drop_last(), k) {
            Some(v) => Some(v),
            None => if b.last().0 == k {
                Some(b.last().1)
            } else {
                None
            },
        }
    }
}

/// The text views of a bucket's entries.
pub open spec fn bucket_view(b: Seq<(Vec<char>, String)>) -> Seq<(Seq<char>, Seq<char>)> {
    b.map_values(|e: (Vec<char>, String)| (e.0@, e.1@))
}

/// First-writer-wins index from lowercased content hash to entity id, kept
/// in buckets by `key_hash`.
pub struct HashIndex {
    table: std::collections::HashMap<u64, Vec<(Vec<char>, String)>>,
}

impl HashIndex {
    /// What the index records for `k`.
    pub closed spec fn lookup(&self, k: Seq<char>) -> Option<Seq<char>> {
        if self.table@.contains_key(key_hash(k)) {
            bucket_find(bucket_view(self.table@[key_hash(k)]@), k)
        } else {
            None
        }
    }

    /// The index as a map from key to entity id.
    pub closed spec fn view(&self) -> Map<Seq<char>, Seq<char>> {
        Map::new(|k: Seq<char>| self.lookup(k) is Some, |k: Seq<char>| self.lookup(k)->Some_0)
    }

    /// An empty index.
    pub fn new() -> (idx: HashIndex)
        ensures
            idx.view() == Map::<Seq<char>, Seq<char>>::empty(),
    {
        let idx = HashIndex { table: std::collections::HashMap::new() };
        assert(idx.view() =~= Map::<Seq<char>, Seq<char>>::empty());
        idx
    }

    /// Position of `key` in the bucket `b`, if it is there.
    fn bucket_position(b: &Vec<(Vec<char>, String)>, key: &Vec<char>) -> (r: Option<usize>)
        ensures
            r matches Some(i) ==> i < b@.len() && bucket_find(bucket_view(b@), key@) == Some(
                b@[i as int].1@,
            ),
            r is None ==> bucket_find(bucket_view(b@), key@) is None,
    {
        let ghost bv = bucket_view(b@);
        let mut i: usize = 0;
        while i < b.len()
            invariant
                i <= b@.len(),
                bv == bucket_view(b@),
                bucket_find(bv.take(i as int), key@) is None,
            decreases b@.len() - i,
        {
            proof {
                assert(bv.take(i + 1).drop_last() =~= bv.take(i as int));
            }
            let k = &b[i].0;
            if range_equals(k, 0, k.len(), key) {
                assert(k@.subrange(0, k@.len() as int) =~= k@);
                proof {
                    lemma_bucket_find_prefix(bv, key@, i + 1);
                }
                return Some(i);
            }
            assert(k@.subrange(0, k@.len() as int) =~= k@);
            i = i + 1;
        }
        assert(bv.take(i as int) =~= bv);
        None
    }

    /// The entity recorded for `key`, if any.
    pub fn get(&self, key: &str) -> (r: Option<String>)
        ensures
            r matches Some(v) ==> self.view().contains_key(key@) && self.view()[key@] == v@,
            r is None ==> !self.view().contains_key(key@),
    {
        let cs = chars_of(key);
        let h = hash_key(&cs);
        match self.table.get(&h) {
            Some(b) => match Self::bucket_position(b, &cs) {
                Some(i) => Some(b[i].1.clone()),
                None => None,
            },
            None => None,
        }
    }

    /// Records `entity` for `key` unless `key` is already recorded; returns
    /// whether it was recorded now.
    pub fn insert_if_absent(&mut self, key: &str, entity: &str) -> (inserted: bool)
        ensures
            inserted == !old(self).view().contains_key(key@),
            final(self).view() == if inserted {
                old(self).view().insert(key@, entity@)
            } else {
                old(self).view()
            },
    {
        let cs = chars_of(key);
        let h = hash_key(&cs);
        let ghost before = self.table@;
        let mut bucket = match self.table.remove(&h) {
            Some(b) => b,
            None => Vec::new(),
        };
        let ghost old_bucket = bucket_view(bucket@);
        assert(self.table@ == before.remove(h));
        assert(old_bucket == if before.contains_key(h) {
            bucket_view(before[h]@)
        } else {
            Seq::<(Seq<char>, Seq<char>)>::empty()
        });
        let found = Self::bucket_position(&bucket, &cs);
        let inserted = found.is_none();
        if inserted {
            bucket.push((cs, String::from_str(entity)));
        }
        let ghost new_bucket = bucket_view(bucket@);
        self.table.insert(h, bucket);
        proof {
            assert(self.table@ == before.insert(h, self.table@[h]));
            if inserted {
                assert(new_bucket =~= old_bucket.push((key@, entity@)));
                assert(new_bucket.drop_last() =~= old_bucket);
            } else {
                assert(new_bucket =~= old_bucket);
            }
            assert forall|k: Seq<char>| #[trigger] self.lookup(k) == (if inserted && k == key@ {
                Some(entity@)
            } else {
                old(self).lookup(k)
            }) by {
                if key_hash(k) != h {
                    assert(self.table@.contains_key(key_hash(k)) == before.contains_key(key_hash(k)));
                    if before.contains_key(key_hash(k)) {
                        assert(self.table@[key_hash(k)] == before[key_hash(k)]);
                    }
                } else {
                    assert(self.table@.contains_key(h));
                    assert(bucket_view(self.table@[h]@) == new_bucket);
                    if !before.contains_key(h) {
                        assert(bucket_find(old_bucket, k) is None);
                    }
                }
            }
            if inserted {
                assert(self.view() =~= old(self).view().insert(key@, entity@));
            } else {
                assert(self.view() =~= old(self).view());
            }
        }
        inserted
    }

    /// The entity that owns `hash`: the one recorded under its lowercase form.
    pub fn entity_for_hash(&self, hash: &str) -> (r: Option<String>)
        ensures
            r matches Some(v) ==> self.view().contains_key(unicode_lowercase(hash@)) && self.view()[unicode_lowercase(hash@)] == v@,
            r is None ==> !self.view().contains_key(unicode_lowercase(hash@)),
    {
        let key = to_lowercase(hash);
        self.get(key.as_str())
    }
}

proof fn lemma_bucket_find_prefix(b: Seq<(Seq<char>, Seq<char>)>, k: Seq<char>, n: int)
    requires
        0 < n <= b.len(),
        bucket_find(b.take(n - 1), k) is None,
        b[n - 1].0 == k,
    ensures
        bucket_find(b, k) == Some(b[n - 1].1),
    decreases b.len() - n,
{
    assert(b.take(n).drop_last() =~= b.take(n - 1));
    if n < b.len() {
        assert(b.take(n + 1).drop_last() =~= b.take(n));
        lemma_bucket_find_extend(b, k, n);
    } else {
        assert(b.take(n) =~= b);
    }
}

proof fn lemma_bucket_find_extend(b: Seq<(Seq<char>, Seq<char>)>, k: Seq<char>, n: int)
    requires
        0 < n <= b.len(),
        bucket_find(b.take(n), k) is Some,
    ensures
        bucket_find(b, k) == bucket_find(b.take(n), k),
    decreases b.len() - n,
{
    if n < b.len() {
        assert(b.take(n + 1).drop_last() =~= b.take(n));
        lemma_bucket_find_extend(b, k, n + 1);
    } else {
        assert(b.take(n) =~= b);
    }
}

/// FNV-1a of the code points of `key`.
pub fn hash_key(key: &Vec<char>) -> (h: u64)
    ensures
        h == key_hash(key@),
{
    let mut h: u64 = 0xcbf2_9ce4_8422_2325u64;
    let mut i: usize = 0;
    while i < key.len()
        invariant
            i <= key@.len(),
            h == key_hash(key@.take(i as int)),
        decreases key@.len() - i,
    {
        proof {
            assert(key@.take(i + 1).drop_last() =~= key@.take(i as int));
        }
        h = (h ^ (key[i] as u64)).wrapping_mul(0x0000_0100_0000_01b3u64);
        i = i + 1;
    }
    proof {
        assert(key@.take(i as int) =~= key@);
        if key@.len() == 0 {
            assert(key@.take(0) =~= Seq::<char>::empty());
        }
    }
    h
}

/// `m` after offering each pair in turn: a key takes the entity of the first
/// pair that names it, unless `m` already has it.
pub open spec fn merged(m: Map<Seq<char>, Seq<char>>, pairs: Seq<(Seq<char>, Seq<char>)>) -> Map<
    Seq<char>,
    Seq<char>,
>
    decreases pairs.len(),
{
    if pairs.len() == 0 {
        m
    } else {
        let before = merged(m, pairs.drop_last());
        if before.contains_key(pairs.last().0) {
            before
        } else {
            before.insert(pairs.last().0, pairs.last().1)
        }
    }
}

/// The text views of a list of string pairs.
pub open spec fn pair_views(v: Seq<(String, String)>) -> Seq<(Seq<char>, Seq<char>)> {
    v.map_values(|p: (String, String)| (p.0@, p.1@))
}

/// First writer wins: offering pairs to an index never changes a key it
/// already has, records every offered key, and gives a new key the entity
/// of the first pair that names it.
pub proof fn lemma_merged_first_writer_wins(
    m: Map<Seq<char>, Seq<char>>,
    pairs: Seq<(Seq<char>, Seq<char>)>,
)
    ensures
        forall|k: Seq<char>| m.contains_key(k) ==> #[trigger] merged(m, pairs).contains_key(k)
            && merged(m, pairs)[k] == m[k],
        forall|i: int| 0 <= i < pairs.len() ==> merged(m, pairs).contains_key(#[trigger] pairs[i].0),
        forall|i: int|
            0 <= i < pairs.len() && !m.contains_key(#[trigger] pairs[i].0) && (forall|j: int|
                0 <= j < i ==> pairs[j].0 != pairs[i].0) ==> merged(m, pairs)[pairs[i].0]
                == pairs[i].1,
        forall|k: Seq<char>|
            #[trigger] merged(m, pairs).contains_key(k) ==> m.contains_key(k) || exists|i: int|
                0 <= i < pairs.len() && pairs[i].0 == k,
    decreases pairs.len(),
{
    if pairs.len() > 0 {
        let t = pairs.drop_last();
        lemma_merged_first_writer_wins(m, t);
        let before = merged(m, t);
        let n = pairs.len() - 1;
        assert forall|i: int| 0 <= i < pairs.len() implies merged(m, pairs).contains_key(
            #[trigger] pairs[i].0,
        ) by {
            if i < n {
                assert(t[i] == pairs[i]);
            }
        }
        assert forall|i: int|
            0 <= i < pairs.len() && !m.contains_key(#[trigger] pairs[i].0) && (forall|j: int|
                0 <= j < i ==> pairs[j].0 != pairs[i].0) implies merged(m, pairs)[pairs[i].0]
            == pairs[i].1 by {
            if i < n {
                assert(t[i] == pairs[i]);
                assert forall|j: int| 0 <= j < i implies t[j].0 != t[i].0 by {
                    assert(t[j] == pairs[j]);
                }
            } else {
                if before.contains_key(pairs[i].0) {
                    let j = choose|j: int| 0 <= j < t.len() && t[j].0 == pairs[i].0;
                    assert(t[j] == pairs[j]);
                }
            }
        }
        assert forall|k: Seq<char>| #[trigger] merged(m, pairs).contains_key(k) implies m.contains_key(k)
            || exists|i: int| 0 <= i < pairs.len() && pairs[i].0 == k by {
            if before.contains_key(k) && !m.contains_key(k) {
                let i = choose|i: int| 0 <= i < t.len() && t[i].0 == k;
                assert(t[i] == pairs[i]);
            }
            if !before.contains_key(k) {
                assert(pairs[n].0 == k);
            }
        }
    }
}

/// How many of `pairs` record a key that `m`, or an earlier pair, did not
/// have.
pub open spec fn merged_count(m: Map<Seq<char>, Seq<char>>, pairs: Seq<(Seq<char>, Seq<char>)>) -> nat
    decreases pairs.len(),
{
    if pairs.len() == 0 {
        0
    } else {
        merged_count(m, pairs.drop_last()) + if merged(m, pairs.drop_last()).contains_key(
            pairs.last().0,
        ) {
            0nat
        } else {
            1nat
        }
    }
}

impl HashIndex {
    /// Offers each `(key, entity)` pair in order (first writer wins) and
    /// returns how many keys were recorded now.
    pub fn merge_pairs(&mut self, pairs: &Vec<(String, String)>) -> (added: usize)
        ensures
            final(self).view() == merged(old(self).view(), pair_views(pairs@)),
            added == merged_count(old(self).view(), pair_views(pairs@)),
    {
        let ghost start = self.view();
        let ghost pv = pair_views(pairs@);
        let mut added: usize = 0;
        let mut i: usize = 0;
        while i < pairs.len()
            invariant
                i <= pairs@.len(),
                pv == pair_views(pairs@),
                self.view() == merged(start, pv.take(i as int)),
                added == merged_count(start, pv.take(i as int)),
                added <= i,
            decreases pairs@.len() - i,
        {
            let ghost before = self.view();
            let inserted = self.insert_if_absent(pairs[i].0.as_str(), pairs[i].1.as_str());
            proof {
                assert(pv.take(i + 1).drop_last() =~= pv.take(i as int));
                assert(pv.take(i + 1).last() == (pairs@[i as int].0@, pairs@[i as int].1@));
            }
            if inserted {
                added = added + 1;
            }
            i = i + 1;
        }
        assert(pv.take(pairs@.len() as int) =~= pv);
        added
    }

    /// Records `entity` as the owner of each of `hashes` (lowercased) that
    /// has no owner yet.
    pub fn index_entity(&mut self, hashes: &Vec<String>, entity: &str)
        ensures
            final(self).view() == merged(old(self).view(), owner_pairs(hashes@, entity@)),
    {
        let pairs = scene_pairs(hashes, entity);
        self.merge_pairs(&pairs);
    }
}

/// `(lowercase hash, entity)` for each hash of an entity.
pub open spec fn owner_pairs(hashes: Seq<String>, entity: Seq<char>) -> Seq<(Seq<char>, Seq<char>)> {
    hashes.map_values(|h: String| (unicode_lowercase(h@), entity))
}

/// The index pairs that an entity's content announces: each content hash
/// lowercased, paired with the entity id, in content order.
pub fn scene_pairs(hashes: &Vec<String>, entity: &str) -> (pairs: Vec<(String, String)>)
    ensures
        pair_views(pairs@) == owner_pairs(hashes@, entity@),
{
    let mut pairs: Vec<(String, String)> = Vec::new();
    let mut i: usize = 0;
    while i < hashes.len()
        invariant
            i <= hashes@.len(),
            pair_views(pairs@) == owner_pairs(hashes@, entity@).take(i as int),
        decreases hashes@.len() - i,
    {
        let key = to_lowercase(hashes[i].as_str());
        let owner = String::from_str(entity);
        let ghost before = pair_views(pairs@);
        pairs.push((key, owner));
        proof {
            assert(pair_views(pairs@) =~= before.push((key@, owner@)));
            assert(owner_pairs(hashes@, entity@)[i as int] == (unicode_lowercase(hashes@[i as int]@), entity@));
            assert(pair_views(pairs@) =~= owner_pairs(hashes@, entity@).take(i + 1));
        }
        i = i + 1;
    }
    assert(owner_pairs(hashes@, entity@).take(i as int) =~= owner_pairs(hashes@, entity@));
    pairs
}

} // verus!
