//! Replay suppression: the key-exchange public keys of the packets that a
//! session has already processed.

use crate::random::random_u64_below;
use crate::sphinx::{same_bytes, KxPublic, KX_PUBLIC_SIZE};
use std::collections::HashMap;
use vstd::prelude::*;

verus! {

broadcast use vstd::std_specs::hash::group_hash_axioms;

/// One step of the keyed hash: folds a byte into the state.
pub open spec fn spec_mix(state: u64, byte: u8) -> u64 {
    (state ^ (byte as u64)).wrapping_mul(0x0000_0100_0000_01b3)
}

/// The tag under which a key is filed: an FNV-1a hash of its bytes that
/// starts from the filter's seed.
pub open spec fn spec_tag(seed: u64, key: Seq<u8>) -> u64
    decreases key.len(),
{
    if key.len() == 0 {
        seed
    } else {
        spec_mix(spec_tag(seed, key.drop_last()), key.last())
    }
}

fn tag(seed: u64, key: &KxPublic) -> (r: u64)
    ensures
        r == spec_tag(seed, key@),
{
    let mut state: u64 = seed;
    let mut i: usize = 0;
    while i < KX_PUBLIC_SIZE
        invariant
            i <= KX_PUBLIC_SIZE,
            state == spec_tag(seed, key@.take(i as int)),
        decreases KX_PUBLIC_SIZE - i,
    {
        proof {
            assert(key@.take(i + 1).drop_last() =~= key@.take(i as int));
        }
        state = (state ^ (key[i] as u64)).wrapping_mul(0x0000_0100_0000_01b3);
        i += 1;
    }
    proof {
        assert(key@.take(KX_PUBLIC_SIZE as int) =~= key@);
    }
    state
}

/// Whether `bucket` holds `key`.
pub open spec fn bucket_holds(bucket: Seq<KxPublic>, key: Seq<u8>) -> bool {
    exists|i: int| 0 <= i < bucket.len() && (#[trigger] bucket[i])@ == key
}

fn bucket_contains(bucket: &Vec<KxPublic>, key: &KxPublic) -> (r: bool)
    ensures
        r == bucket_holds(bucket@, key@),
{
    let mut i: usize = 0;
    while i < bucket.len()
        invariant
            i <= bucket@.len(),
            forall|j: int| 0 <= j < i ==> (#[trigger] bucket@[j])@ != key@,
        decreases bucket@.len() - i,
    {
        if same_bytes(&bucket[i], key) {
            return true;
        }
        i += 1;
    }
    false
}

/// The set of key-exchange public keys seen in a session. The set is exact:
/// a key is reported if and only if it was inserted. Keys are filed under a
/// hash that is keyed with a seed drawn when the filter is made, so that
/// nobody outside can prepare keys that land in one place.
pub struct ReplayFilter {
    seed: u64,
    buckets: HashMap<u64, Vec<KxPublic>>,
}

impl View for ReplayFilter {
    type V = Set<Seq<u8>>;

    /// The keys that were inserted.
    closed spec fn view(&self) -> Set<Seq<u8>> {
        Set::new(
            |key: Seq<u8>|
                self.buckets@.contains_key(spec_tag(self.seed, key)) && bucket_holds(
                    self.buckets@[spec_tag(self.seed, key)]@,
                    key,
                ),
        )
    }
}

impl ReplayFilter {
    /// The seed that the filter was made with. It keys the hash for as long
    /// as the filter lives.
    pub closed spec fn spec_seed(&self) -> u64 {
        self.seed
    }

    /// The tag under which the filter files `key`: the hash of the key,
    /// keyed with the seed of the filter.
    pub open spec fn files_under(&self, key: Seq<u8>) -> u64 {
        spec_tag(self.spec_seed(), key)
    }

    /// Returns an empty filter with a random seed.
    pub fn new() -> (r: ReplayFilter)
        ensures
            r@ == Set::<Seq<u8>>::empty(),
    {
        ReplayFilter::with_seed(random_u64_below(u64::MAX))
    }

    /// Returns an empty filter that is keyed with the given seed.
    pub fn with_seed(seed: u64) -> (r: ReplayFilter)
        ensures
            r@ == Set::<Seq<u8>>::empty(),
            r.spec_seed() == seed,
    {
        let r = ReplayFilter { seed, buckets: HashMap::new() };
        assert(r@ =~= Set::<Seq<u8>>::empty());
        r
    }

    /// Returns whether `key` was inserted before.
    pub fn contains(&self, key: &KxPublic) -> (r: bool)
        ensures
            r == self@.contains(key@),
    {
        let t = tag(self.seed, key);
        match self.buckets.get(&t) {
            Some(bucket) => bucket_contains(bucket, key),
            None => false,
        }
    }

    /// Inserts `key`. The seed of the filter stays as it is.
    pub fn insert(&mut self, key: &KxPublic)
        ensures
            final(self)@ == old(self)@.insert(key@),
            final(self).spec_seed() == old(self).spec_seed(),
    {
        let t = tag(self.seed, key);
        let mut bucket = match self.buckets.remove(&t) {
            Some(bucket) => bucket,
            None => Vec::new(),
        };
        let ghost before = bucket@;
        if !bucket_contains(&bucket, key) {
            bucket.push(*key);
        }
        proof {
            assert(bucket_holds(bucket@, key@)) by {
                if !bucket_holds(before, key@) {
                    assert(bucket@[before.len() as int]@ == key@);
                }
            }
            assert forall|other: Seq<u8>| bucket_holds(before, other) implies bucket_holds(
                bucket@,
                other,
            ) by {
                let i = choose|i: int| 0 <= i < before.len() && (#[trigger] before[i])@ == other;
                assert(bucket@[i]@ == other);
            }
            assert forall|other: Seq<u8>| bucket_holds(bucket@, other) && other
                != key@ implies bucket_holds(before, other) by {
                let i = choose|i: int| 0 <= i < bucket@.len() && (#[trigger] bucket@[i])@ == other;
                assert(i < before.len());
                assert(before[i]@ == other);
            }
        }
        self.buckets.insert(t, bucket);
        proof {
            assert(final(self)@ =~= old(self)@.insert(key@));
        }
    }
}

} // verus!
