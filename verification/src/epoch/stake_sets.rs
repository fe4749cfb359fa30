//! `StakeSet` and `ExecutorSet`: the weighted key-to-stake maps, their totals
//! and their order-independent fingerprints.
use crate::bytes::copy_bytes;
use crate::encoding::pack_stakes;
use crate::epoch::leader::Shuffler;
use crate::primitives::digest_sha256;
use crate::sorted_map::SortedMap;
use vstd::prelude::*;

verus! {

/// The sum of the stakes in a listing.
pub open spec fn stake_sum(entries: Seq<(Seq<u8>, u64)>) -> nat
    decreases entries.len(),
{
    if entries.len() == 0 {
        0
    } else {
        stake_sum(entries.drop_last()) + entries.last().1 as nat
    }
}

/// A sum that stops at the largest `u64` instead of overflowing.
pub open spec fn saturated(n: nat) -> u64 {
    if n > u64::MAX {
        u64::MAX
    } else {
        n as u64
    }
}

/// The stake of a key, zero for a key without an entry.
pub open spec fn stake_of(stakes: Map<Seq<u8>, u64>, key: Seq<u8>) -> u64 {
    if stakes.contains_key(key) {
        stakes[key]
    } else {
        0
    }
}

/// The digest that identifies a set of stakes.
pub open spec fn stakes_fingerprint(entries: Seq<(Seq<u8>, u64)>) -> Seq<u8> {
    crate::primitives::sha256_digest(crate::encoding::stake_map_bytes(entries))@
}

pub proof fn lemma_stake_sum_take(entries: Seq<(Seq<u8>, u64)>, i: int)
    requires
        0 <= i < entries.len(),
    ensures
        stake_sum(entries.take(i + 1)) == stake_sum(entries.take(i)) + entries[i].1 as nat,
{
    assert(entries.take(i + 1).drop_last() =~= entries.take(i));
    assert(entries.take(i + 1).last() == entries[i]);
}

/// The saturating total of a map of stakes.
fn sum_stakes(stakes: &SortedMap<u64>) -> (r: u64)
    ensures
        r == saturated(stake_sum(stakes.listing())),
{
    let mut total: u64 = 0;
    let mut i: usize = 0;
    assert(stakes.listing().take(0) =~= Seq::empty());
    while i < stakes.len()
        invariant
            i <= stakes.listing().len(),
            total == saturated(stake_sum(stakes.listing().take(i as int))),
        decreases stakes.listing().len() - i,
    {
        proof {
            lemma_stake_sum_take(stakes.listing(), i as int);
        }
        total = total.saturating_add(*stakes.value_at(i));
        i += 1;
    }
    assert(stakes.listing().take(i as int) =~= stakes.listing());
    total
}

/// The stake recorded for `key`, zero where there is none.
fn lookup_stake(stakes: &SortedMap<u64>, key: &[u8]) -> (r: u64)
    ensures
        r == stake_of(stakes@, key@),
{
    match stakes.get(key) {
        Some(stake) => *stake,
        None => 0,
    }
}

/// The first 32 bytes of a digest as an array.
fn to_array32(digest: &Vec<u8>) -> (r: [u8; 32])
    requires
        digest@.len() == 32,
    ensures
        r@ == digest@,
{
    let mut r: [u8; 32] = [0u8; 32];
    let mut i: usize = 0;
    while i < 32
        invariant
            i <= 32,
            digest@.len() == 32,
            forall|j: int| 0 <= j < i ==> r@[j] == digest@[j],
        decreases 32 - i,
    {
        r[i] = digest[i];
        i += 1;
    }
    assert(r@ =~= digest@);
    r
}

/// Maps public keys to stake amounts for leader selection and quorum checks.
#[derive(Debug)]
pub struct StakeSet {
    /// Public key to stake amount
    pub stakers: SortedMap<u64>,
}

impl StakeSet {
    /// The sum of all stakes, saturating at the largest `u64`.
    pub fn total_stake(&self) -> (r: u64)
        ensures
            r == saturated(stake_sum(self.stakers.listing())),
    {
        sum_stakes(&self.stakers)
    }

    /// Get the stake for a specific public key
    pub fn get_stake(&self, key: &[u8]) -> (r: u64)
        ensures
            r == stake_of(self.stakers@, key@),
    {
        lookup_stake(&self.stakers, key)
    }

    /// Convert to an `ExecutorSet`: active stakers become the executor pool.
    pub fn to_executor_set(&self) -> (r: ExecutorSet)
        ensures
            r.executors.listing() == self.stakers.listing(),
            r.executors@ == self.stakers@,
    {
        ExecutorSet { executors: self.stakers.duplicate() }
    }

    /// Canonical byte encoding for integrity binding: the entries in key order.
    pub fn canonical_bytes(&self) -> (r: Result<Vec<u8>, std::io::Error>)
        ensures
            r matches Ok(bytes) && bytes@ == crate::encoding::packed_stakes(self.stakers.listing())
                && bytes@ == crate::encoding::stake_map_bytes(self.stakers.listing()),
    {
        Ok(pack_stakes(&self.stakers))
    }

    /// SHA-256 fingerprint of the canonical bytes.
    pub fn fingerprint(&self) -> (r: [u8; 32])
        ensures
            r@ == stakes_fingerprint(self.stakers.listing()),
            r@ == crate::primitives::sha256_digest(
                crate::encoding::packed_stakes(self.stakers.listing()),
            )@,
    {
        to_array32(&digest_sha256(&pack_stakes(&self.stakers)))
    }
}

impl Default for StakeSet {
    fn default() -> (r: Self)
        ensures
            r.stakers@ == Map::<Seq<u8>, u64>::empty(),
            r.stakers.listing() == Seq::<(Seq<u8>, u64)>::empty(),
    {
        StakeSet { stakers: SortedMap::new() }
    }
}

impl Clone for StakeSet {
    fn clone(&self) -> (r: Self)
        ensures
            r.stakers.listing() == self.stakers.listing(),
            r.stakers@ == self.stakers@,
    {
        StakeSet { stakers: self.stakers.duplicate() }
    }
}

/// Maps executor public keys to their stakes, for deterministic shard
/// assignment.
#[derive(Debug)]
pub struct ExecutorSet {
    /// Executor public key to stake amount
    pub executors: SortedMap<u64>,
}

impl ExecutorSet {
    /// The sum of all stakes, saturating at the largest `u64`.
    pub fn total_stake(&self) -> (r: u64)
        ensures
            r == saturated(stake_sum(self.executors.listing())),
    {
        sum_stakes(&self.executors)
    }

    pub fn len(&self) -> (r: usize)
        ensures
            r == self.executors.listing().len(),
    {
        self.executors.len()
    }

    pub fn is_empty(&self) -> (r: bool)
        ensures
            r == (self.executors.listing().len() == 0),
    {
        self.executors.len() == 0
    }

    pub fn get_stake(&self, key: &[u8]) -> (r: u64)
        ensures
            r == stake_of(self.executors@, key@),
    {
        lookup_stake(&self.executors, key)
    }

    /// Convert to a `StakeSet` for leader and finalizer selection.
    pub fn to_stake_set(&self) -> (r: StakeSet)
        ensures
            r.stakers.listing() == self.executors.listing(),
            r.stakers@ == self.executors@,
    {
        StakeSet { stakers: self.executors.duplicate() }
    }

    /// The executor keys in key order.
    pub fn sorted_keys(&self) -> (r: Vec<Vec<u8>>)
        ensures
            r@.len() == self.executors.listing().len(),
            forall|i: int|
                0 <= i < r@.len() ==> (#[trigger] r@[i])@ == self.executors.listing()[i].0,
    {
        let mut keys: Vec<Vec<u8>> = Vec::with_capacity(self.executors.len());
        let mut i: usize = 0;
        while i < self.executors.len()
            invariant
                i <= self.executors.listing().len(),
                keys@.len() == i,
                forall|j: int|
                    0 <= j < i ==> (#[trigger] keys@[j])@ == self.executors.listing()[j].0,
            decreases self.executors.listing().len() - i,
        {
            keys.push(copy_bytes(self.executors.key_at(i)));
            i += 1;
        }
        keys
    }

    /// Create a deterministic shuffler for this executor set at a given epoch.
    /// The shuffle starts from the keys in key order, so it does not depend on
    /// how the set was filled.
    pub fn shuffler(&self, epoch_number: u64, prev_block_hash: &[u8]) -> (r: Shuffler)
        ensures
            r.permutation() == crate::epoch::leader::epoch_shuffle(
                crate::epoch::leader::keys_of(self.executors.listing()),
                epoch_number,
                prev_block_hash@,
            ),
    {
        let keys = self.sorted_keys();
        assert(crate::epoch::leader::views(keys@) =~= crate::epoch::leader::keys_of(
            self.executors.listing(),
        ));
        Shuffler::new(keys, epoch_number, prev_block_hash)
    }

    /// Canonical byte encoding for integrity binding: the entries in key order.
    pub fn canonical_bytes(&self) -> (r: Result<Vec<u8>, std::io::Error>)
        ensures
            r matches Ok(bytes) && bytes@ == crate::encoding::packed_stakes(
                self.executors.listing(),
            ) && bytes@ == crate::encoding::stake_map_bytes(self.executors.listing()),
    {
        Ok(pack_stakes(&self.executors))
    }

    /// SHA-256 fingerprint of the canonical bytes.
    pub fn fingerprint(&self) -> (r: [u8; 32])
        ensures
            r@ == stakes_fingerprint(self.executors.listing()),
            r@ == crate::primitives::sha256_digest(
                crate::encoding::packed_stakes(self.executors.listing()),
            )@,
    {
        to_array32(&digest_sha256(&pack_stakes(&self.executors)))
    }
}

impl Default for ExecutorSet {
    fn default() -> (r: Self)
        ensures
            r.executors@ == Map::<Seq<u8>, u64>::empty(),
            r.executors.listing() == Seq::<(Seq<u8>, u64)>::empty(),
    {
        ExecutorSet { executors: SortedMap::new() }
    }
}

impl Clone for ExecutorSet {
    fn clone(&self) -> (r: Self)
        ensures
            r.executors.listing() == self.executors.listing(),
            r.executors@ == self.executors@,
    {
        ExecutorSet { executors: self.executors.duplicate() }
    }
}

/// Two stake maps with the same entries have the same canonical bytes and the
/// same fingerprint, however they were filled.
pub proof fn fingerprint_is_order_independent(a: &SortedMap<u64>, b: &SortedMap<u64>)
    requires
        a.wf(),
        b.wf(),
        a@ == b@,
    ensures
        a.listing() == b.listing(),
        crate::encoding::packed_stakes(a.listing()) == crate::encoding::packed_stakes(b.listing()),
        stakes_fingerprint(a.listing()) == stakes_fingerprint(b.listing()),
{
    a.lemma_listing();
    b.lemma_listing();
    crate::sorted_map::listing_is_canonical(a.listing(), b.listing());
}

/// A listing sums up to what folding its stakes together gives.
pub proof fn stake_sum_adds_every_stake(entries: Seq<(Seq<u8>, u64)>)
    ensures
        stake_sum(entries) == entries.fold_left(0int, |sum: int, e: (Seq<u8>, u64)| sum + e.1),
        forall|i: int| 0 <= i < entries.len() ==> (#[trigger] entries[i]).1 <= stake_sum(entries),
    decreases entries.len(),
{
    reveal(Seq::fold_left);
    if entries.len() > 0 {
        stake_sum_adds_every_stake(entries.drop_last());
        assert forall|i: int| 0 <= i < entries.len() implies (#[trigger] entries[i]).1
            <= stake_sum(entries) by {
            if i < entries.len() - 1 {
                assert(entries.drop_last()[i] == entries[i]);
            }
        }
    }
}

/// A total is the sum where that fits, and never more than the largest number
/// that does.
pub proof fn totals_saturate(n: nat)
    ensures
        n <= u64::MAX ==> saturated(n) == n,
        n > u64::MAX ==> saturated(n) == u64::MAX,
{
}

/// The fingerprint covers every key and every stake: two sets of stakes with the
/// same fingerprint are the same, unless SHA-256 takes their different encodings to
/// the same digest.
pub proof fn fingerprints_cover_the_stakes(a: Seq<(Seq<u8>, u64)>, b: Seq<(Seq<u8>, u64)>)
    requires
        crate::encoding::short_stakes(a),
        crate::encoding::short_stakes(b),
    ensures
        stakes_fingerprint(a) == stakes_fingerprint(b) ==> a == b || (
        crate::encoding::stake_map_bytes(a) != crate::encoding::stake_map_bytes(b)
            && crate::primitives::sha256_digest(crate::encoding::stake_map_bytes(a))@
            == crate::primitives::sha256_digest(crate::encoding::stake_map_bytes(b))@),
        a == b ==> stakes_fingerprint(a) == stakes_fingerprint(b),
{
    let x = crate::encoding::stake_map_bytes(a);
    let y = crate::encoding::stake_map_bytes(b);
    if x == y {
        assert(x + Seq::empty() =~= x);
        assert(y + Seq::empty() =~= y);
        crate::encoding::stake_maps_are_readable(a, b, Seq::empty(), Seq::empty());
    } else {
        assert(stakes_fingerprint(a) == crate::primitives::sha256_digest(x)@);
        assert(stakes_fingerprint(b) == crate::primitives::sha256_digest(y)@);
    }
}

/// A key without an entry has no stake; one with an entry has what it says.
pub proof fn missing_keys_have_no_stake(stakes: Map<Seq<u8>, u64>, key: Seq<u8>)
    ensures
        stakes.contains_key(key) ==> stake_of(stakes, key) == stakes[key],
        !stakes.contains_key(key) ==> stake_of(stakes, key) == 0,
{
}

} // verus!
