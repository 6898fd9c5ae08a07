//! The Bloom filter: a fixed array of flags and a number of probes per item.
use std::collections::hash_map::DefaultHasher;
use std::hash::Hasher;
use std::marker::PhantomData;
use vstd::prelude::*;
use vstd::std_specs::hash::DefaultHasherAdditionalSpecFns;
use crate::bitset::{bits_of, cleared_bits, get_bit, set_bit};
use crate::key::BloomKey;

verus! {

/// Why a filter could not be built.
#[derive(Debug, Clone, Copy, PartialEq, Eq, Structural)]
pub enum BloomError {
    /// No expected items, or no room for a single flag.
    InvalidParameter,
}

/// The eight bytes that carry a probe's seed into the hasher, least
/// significant first.
pub open spec fn seed_bytes(seed: u64) -> Seq<u8> {
    seq![
        seed as u8,
        (seed >> 8u64) as u8,
        (seed >> 16u64) as u8,
        (seed >> 24u64) as u8,
        (seed >> 32u64) as u8,
        (seed >> 40u64) as u8,
        (seed >> 48u64) as u8,
        (seed >> 56u64) as u8,
    ]
}

/// The hash of probe `seed` for an item with content `key`: a default
/// hasher that was fed the seed's bytes, then the content.
pub open spec fn probe_hash(seed: int, key: Seq<u8>) -> u64 {
    DefaultHasher::spec_finish(seq![seed_bytes(seed as u64), key])
}

/// The flag that probe `seed` of `key` lands on, among `m` flags.
pub open spec fn probe_index(seed: int, key: Seq<u8>, m: nat) -> int {
    (probe_hash(seed, key) as nat % m) as int
}

/// What a filter is: its flags and the number of probes per item.
pub struct FilterState {
    pub bits: Seq<bool>,
    pub hash_count: nat,
}

impl FilterState {
    /// `m` cleared flags and `k` probes.
    pub open spec fn empty(m: nat, k: nat) -> FilterState {
        FilterState { bits: Seq::new(m, |_j: int| false), hash_count: k }
    }

    /// At least one flag and at least one probe.
    pub open spec fn wf(self) -> bool {
        self.bits.len() >= 1 && self.hash_count >= 1
    }

    /// The flag that probe `i` of `key` lands on.
    pub open spec fn probe(self, i: int, key: Seq<u8>) -> int {
        probe_index(i, key, self.bits.len())
    }

    /// Some probe of `key` lands on flag `j`.
    pub open spec fn is_probed(self, j: int, key: Seq<u8>) -> bool {
        exists|i: int| 0 <= i < self.hash_count && #[trigger] self.probe(i, key) == j
    }

    /// Every probe of `key` finds its flag set: the filter answers "present".
    pub open spec fn holds(self, key: Seq<u8>) -> bool {
        forall|i: int| 0 <= i < self.hash_count ==> self.bits[#[trigger] self.probe(i, key)]
    }

    /// The filter after `key` was added: the flags of its probes are set,
    /// the others stay.
    pub open spec fn insert(self, key: Seq<u8>) -> FilterState {
        FilterState {
            bits: Seq::new(self.bits.len(), |j: int| self.bits[j] || self.is_probed(j, key)),
            hash_count: self.hash_count,
        }
    }

    /// The filter after each of `keys` was added, in order.
    pub open spec fn insert_all(self, keys: Seq<Seq<u8>>) -> FilterState
        decreases keys.len(),
    {
        if keys.len() == 0 {
            self
        } else {
            self.insert_all(keys.drop_last()).insert(keys.last())
        }
    }
}

/// Every probe of a well-formed filter lands on one of its flags.
pub proof fn lemma_probe_in_range(s: FilterState, i: int, key: Seq<u8>)
    requires
        s.wf(),
    ensures
        0 <= s.probe(i, key) < s.bits.len(),
{
}

/// Adding an item never clears a flag and keeps the size and the number of
/// probes.
pub proof fn lemma_insert_monotonic(s: FilterState, key: Seq<u8>)
    requires
        s.wf(),
    ensures
        s.insert(key).wf(),
        s.insert(key).bits.len() == s.bits.len(),
        s.insert(key).hash_count == s.hash_count,
        forall|j: int| 0 <= j < s.bits.len() && s.bits[j] ==> #[trigger] s.insert(key).bits[j],
{
}

/// Adding any items keeps a filter well formed, with its size.
pub proof fn lemma_insert_all_wf(s: FilterState, keys: Seq<Seq<u8>>)
    requires
        s.wf(),
    ensures
        s.insert_all(keys).wf(),
        s.insert_all(keys).bits.len() == s.bits.len(),
        s.insert_all(keys).hash_count == s.hash_count,
    decreases keys.len(),
{
    if keys.len() > 0 {
        lemma_insert_all_wf(s, keys.drop_last());
        lemma_insert_monotonic(s.insert_all(keys.drop_last()), keys.last());
    }
}

/// Right after an item is added, the filter answers "present" for it.
pub proof fn lemma_added_holds(s: FilterState, key: Seq<u8>)
    requires
        s.wf(),
    ensures
        s.insert(key).holds(key),
{
    let t = s.insert(key);
    assert forall|i: int| 0 <= i < t.hash_count implies t.bits[#[trigger] t.probe(i, key)] by {
        lemma_probe_in_range(s, i, key);
        assert(t.probe(i, key) == s.probe(i, key));
        assert(s.is_probed(s.probe(i, key), key));
    }
}

/// An item that the filter answers "present" for stays so after any
/// further items are added.
pub proof fn lemma_held_stays(s: FilterState, key: Seq<u8>, others: Seq<Seq<u8>>)
    requires
        s.wf(),
        s.holds(key),
    ensures
        s.insert_all(others).wf(),
        s.insert_all(others).bits.len() == s.bits.len(),
        s.insert_all(others).holds(key),
    decreases others.len(),
{
    if others.len() > 0 {
        let before = s.insert_all(others.drop_last());
        lemma_held_stays(s, key, others.drop_last());
        lemma_insert_monotonic(before, others.last());
        let after = before.insert(others.last());
        assert forall|i: int| 0 <= i < after.hash_count implies after.bits[#[trigger] after.probe(
            i,
            key,
        )] by {
            lemma_probe_in_range(before, i, key);
            assert(after.probe(i, key) == before.probe(i, key));
            assert(before.bits[before.probe(i, key)]);
        }
    }
}

/// No false negatives: once an item is added, the filter answers "present"
/// for it, whatever items are added after it.
pub proof fn lemma_no_false_negatives(s: FilterState, key: Seq<u8>, others: Seq<Seq<u8>>)
    requires
        s.wf(),
    ensures
        s.insert(key).insert_all(others).holds(key),
{
    lemma_insert_monotonic(s, key);
    lemma_added_holds(s, key);
    lemma_held_stays(s.insert(key), key, others);
}

/// Adding an item a second time changes nothing.
pub proof fn lemma_insert_idempotent(s: FilterState, key: Seq<u8>)
    requires
        s.wf(),
    ensures
        s.insert(key).insert(key) == s.insert(key),
{
    let t = s.insert(key);
    assert forall|j: int| 0 <= j < t.bits.len() implies #[trigger] t.insert(key).bits[j] == t.bits[j] by {
        if t.is_probed(j, key) {
            let i = choose|i: int| 0 <= i < t.hash_count && #[trigger] t.probe(i, key) == j;
            assert(s.probe(i, key) == j);
        }
    }
    assert(t.insert(key).bits =~= t.bits);
}

/// A Bloom filter over items of type `T`.
pub struct BloomFilter<T> {
    bit_vec: bit_vec::BitVec,
    bit_vec_size: usize,
    hash_count: usize,
    phantom: PhantomData<T>,
}

impl<T> View for BloomFilter<T> {
    type V = FilterState;

    closed spec fn view(&self) -> FilterState {
        FilterState { bits: bits_of(self.bit_vec), hash_count: self.hash_count as nat }
    }
}

impl<T: BloomKey> BloomFilter<T> {
    /// The fields agree with each other: the size is the number of flags,
    /// and there is at least one flag and one probe.
    pub closed spec fn wf(&self) -> bool {
        &&& bits_of(self.bit_vec).len() == self.bit_vec_size
        &&& self.bit_vec_size >= 1
        &&& self.hash_count >= 1
    }

    /// A well-formed filter has a well-formed state.
    pub proof fn lemma_wf(&self)
        requires
            self.wf(),
        ensures
            self@.wf(),
    {
    }

    /// Builds an empty filter of `bit_vec_size` flags for `item_count`
    /// expected items, with `hash_count` probes per item, or one probe
    /// where `hash_count` is zero.
    pub fn new(item_count: usize, bit_vec_size: usize, hash_count: usize) -> (r: Result<
        Self,
        BloomError,
    >)
        ensures
            r is Err <==> (item_count == 0 || bit_vec_size == 0),
            r is Err ==> r->Err_0 == BloomError::InvalidParameter,
            r is Ok ==> r->Ok_0.wf(),
            r is Ok ==> r->Ok_0@ == FilterState::empty(
                bit_vec_size as nat,
                if hash_count == 0 { 1 } else { hash_count as nat },
            ),
    {
        if item_count == 0 || bit_vec_size == 0 {
            return Err(BloomError::InvalidParameter);
        }
        let k: usize = if hash_count == 0 { 1 } else { hash_count };
        Ok(BloomFilter {
            bit_vec: cleared_bits(bit_vec_size),
            bit_vec_size,
            hash_count: k,
            phantom: PhantomData,
        })
    }

    /// The hash of probe `i` for `t`: a default hasher fed `i` as eight
    /// bytes, least significant first, then `t`'s content.
    pub fn hash(i: usize, t: &T) -> (r: u64)
        ensures
            r == probe_hash(i as int, t.key_bytes()),
    {
        let seed = i as u64;
        let bytes: [u8; 8] = [
            seed as u8,
            (seed >> 8u64) as u8,
            (seed >> 16u64) as u8,
            (seed >> 24u64) as u8,
            (seed >> 32u64) as u8,
            (seed >> 40u64) as u8,
            (seed >> 48u64) as u8,
            (seed >> 56u64) as u8,
        ];
        let mut s = DefaultHasher::new();
        s.write(bytes.as_slice());
        t.hash_key(&mut s);
        assert(bytes@ =~= seed_bytes(seed));
        assert(s@ =~= seq![seed_bytes(seed), t.key_bytes()]);
        s.finish()
    }

    /// The flag that probe `i` of `t` lands on.
    fn index_of(&self, i: usize, t: &T) -> (r: usize)
        requires
            self.wf(),
        ensures
            r as int == self@.probe(i as int, t.key_bytes()),
            r < self.bit_vec_size,
    {
        let h = Self::hash(i, t);
        let m = self.bit_vec_size as u64;
        (h % m) as usize
    }

    /// Sets the flag of each probe of `item`.
    pub fn add(&mut self, item: &T)
        requires
            old(self).wf(),
        ensures
            final(self).wf(),
            final(self)@ == old(self)@.insert(item.key_bytes()),
            final(self)@.holds(item.key_bytes()),
    {
        let ghost start = self@;
        let ghost key = item.key_bytes();
        let mut i: usize = 0;
        while i < self.hash_count
            invariant
                self.wf(),
                key == item.key_bytes(),
                self.hash_count == start.hash_count,
                self@.hash_count == start.hash_count,
                self@.bits.len() == start.bits.len(),
                0 <= i <= self.hash_count,
                forall|j: int|
                    0 <= j < start.bits.len() ==> #[trigger] self@.bits[j] == (start.bits[j]
                        || exists|p: int| 0 <= p < i && #[trigger] start.probe(p, key) == j),
            decreases self.hash_count - i,
        {
            let index = self.index_of(i, item);
            let ghost before = self@.bits;
            set_bit(&mut self.bit_vec, index, true);
            assert forall|j: int| 0 <= j < start.bits.len() implies #[trigger] self@.bits[j] == (
            start.bits[j] || exists|p: int| 0 <= p < i + 1 && #[trigger] start.probe(p, key) == j) by {
                if j == index as int {
                    assert(start.probe(i as int, key) == j);
                } else {
                    assert(self@.bits[j] == before[j]);
                    if exists|p: int| 0 <= p < i + 1 && #[trigger] start.probe(p, key) == j {
                        let p = choose|p: int| 0 <= p < i + 1 && #[trigger] start.probe(p, key) == j;
                        assert(p != i);
                    }
                }
            }
            i = i + 1;
        }
        assert(self@.bits =~= start.insert(key).bits);
        proof {
            lemma_added_holds(start, key);
        }
    }

    /// Whether every probe of `item` finds its flag set; stops at the
    /// first cleared flag.
    pub fn contains(&self, item: &T) -> (r: bool)
        requires
            self.wf(),
        ensures
            r == self@.holds(item.key_bytes()),
    {
        let ghost key = item.key_bytes();
        let mut i: usize = 0;
        while i < self.hash_count
            invariant
                self.wf(),
                key == item.key_bytes(),
                0 <= i <= self.hash_count,
                forall|p: int| 0 <= p < i ==> self@.bits[#[trigger] self@.probe(p, key)],
            decreases self.hash_count - i,
        {
            let index = self.index_of(i, item);
            if !get_bit(&self.bit_vec, index) {
                return false;
            }
            i = i + 1;
        }
        true
    }

    /// The number of flags.
    pub fn size(&self) -> (r: usize)
        requires
            self.wf(),
        ensures
            r == self@.bits.len(),
            r >= 1,
    {
        self.bit_vec_size
    }

    /// The number of probes per item.
    pub fn hash_count(&self) -> (r: usize)
        requires
            self.wf(),
        ensures
            r == self@.hash_count,
            r >= 1,
    {
        self.hash_count
    }
}

} // verus!
