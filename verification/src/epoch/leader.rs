//! Leader and executor selection: domain-tagged seeds, the deterministic
//! shuffle, stake-weighted selection and stake-balanced sharding.
use crate::bytes::{append_bytes, copy_bytes, to_be_bytes};
use crate::epoch::stake_sets::{ExecutorSet, StakeSet};
use crate::epoch::types::IEpochLeaderSelector;
use crate::primitives::digest_sha256;
use rand::{Rng, SeedableRng};
use vstd::prelude::*;

verus! {

/// Domain byte of leader election.
pub const LEADER_DOMAIN: u8 = 0x01;

/// Domain byte of the per-epoch executor shuffle.
pub const SHARD_SHUFFLE_DOMAIN: u8 = 0x02;

/// Domain byte of finalizer routing.
pub const FINALIZER_DOMAIN: u8 = 0x03;

/// Domain byte of the shard index of a transaction.
pub const SHARD_INDEX_DOMAIN: u8 = 0x04;

/// The bytes that a selection seed is the digest of: the domain, the epoch
/// number in eight big-endian bytes, the previous block hash and the salt.
pub open spec fn seed_input(domain: u8, epoch: u64, prev_hash: Seq<u8>, extra: Seq<u8>) -> Seq<u8> {
    seq![domain] + crate::bytes::be_bytes(epoch as nat, 8) + prev_hash + extra
}

/// The seed of a selection.
pub open spec fn selection_seed(domain: u8, epoch: u64, prev_hash: Seq<u8>, extra: Seq<u8>) -> Seq<
    u8,
> {
    crate::primitives::sha256_digest(seed_input(domain, epoch, prev_hash, extra))@
}

/// Selections of different purposes or epochs never hash the same bytes, and
/// within one the chain tip followed by the salt decides.
pub proof fn seed_inputs_are_separated(
    domain1: u8,
    epoch1: u64,
    tip1: Seq<u8>,
    extra1: Seq<u8>,
    domain2: u8,
    epoch2: u64,
    tip2: Seq<u8>,
    extra2: Seq<u8>,
)
    requires
        seed_input(domain1, epoch1, tip1, extra1) == seed_input(domain2, epoch2, tip2, extra2),
    ensures
        domain1 == domain2,
        epoch1 == epoch2,
        tip1 + extra1 == tip2 + extra2,
{
    let a = seed_input(domain1, epoch1, tip1, extra1);
    let b = seed_input(domain2, epoch2, tip2, extra2);
    crate::bytes::lemma_be_bytes_len(epoch1 as nat, 8);
    crate::bytes::lemma_be_bytes_len(epoch2 as nat, 8);
    assert(a[0] == domain1 && b[0] == domain2);
    assert(a.subrange(1, 9) =~= crate::bytes::be_bytes(epoch1 as nat, 8));
    assert(b.subrange(1, 9) =~= crate::bytes::be_bytes(epoch2 as nat, 8));
    assert(vstd::arithmetic::power::pow(256, 8) == 0x1_0000_0000_0000_0000) by {
        reveal_with_fuel(vstd::arithmetic::power::pow, 9);
    }
    crate::bytes::lemma_be_round_trip(epoch1 as nat, 8);
    crate::bytes::lemma_be_round_trip(epoch2 as nat, 8);
    assert(a.skip(9) =~= tip1 + extra1);
    assert(b.skip(9) =~= tip2 + extra2);
}

/// Derive the 32-byte seed for a deterministic selection.
///
/// `domain` distinguishes the selection type. `prev_block_hash` binds the
/// choice to the mined chain tip and is empty at genesis. `extra` is a
/// per-transaction salt, empty for leader election and the shuffle.
pub fn derive_selection_seed(
    domain: u8,
    epoch_number: u64,
    prev_block_hash: &[u8],
    extra: &[u8],
) -> (r: [u8; 32])
    ensures
        r@ == selection_seed(domain, epoch_number, prev_block_hash@, extra@),
{
    let mut input: Vec<u8> = vec![domain];
    append_bytes(&mut input, &to_be_bytes(epoch_number, 8));
    append_bytes(&mut input, prev_block_hash);
    append_bytes(&mut input, extra);
    assert(input@ =~= seed_input(domain, epoch_number, prev_block_hash@, extra@));
    let digest = digest_sha256(&input);
    let mut out: [u8; 32] = [0u8; 32];
    let mut i: usize = 0;
    while i < 32
        invariant
            i <= 32,
            digest@.len() == 32,
            forall|j: int| 0 <= j < i ==> out@[j] == digest@[j],
        decreases 32 - i,
    {
        out[i] = digest[i];
        i += 1;
    }
    assert(out@ =~= digest@);
    out
}

/// `rand::rngs::StdRng`.
#[verifier::external_type_specification]
#[verifier::external_body]
pub struct ExStdRng(rand::rngs::StdRng);

/// The state of a generator, written as a number.
pub uninterp spec fn rng_state(rng: rand::rngs::StdRng) -> nat;

/// The state that a generator made from `seed` starts in.
pub uninterp spec fn seeded_state(seed: Seq<u8>) -> nat;

/// `StdRng::from_seed`: a generator whose state the seed determines.
#[verifier::external_body]
fn seeded_rng(seed: &[u8; 32]) -> (r: rand::rngs::StdRng)
    ensures
        rng_state(r) == seeded_state(seed@),
{
    rand::rngs::StdRng::from_seed(*seed)
}

/// The number below `bound` that a generator draws in a given state.
pub uninterp spec fn drawn(state: nat, bound: u64) -> u64;

/// The state in which that draw leaves the generator.
pub uninterp spec fn state_after(state: nat, bound: u64) -> nat;

/// `Rng::gen_range(0..bound)` of `u64`: a number below `bound`. State and bound
/// determine the number and the state that follows.
#[verifier::external_body]
fn draw_below(rng: &mut rand::rngs::StdRng, bound: u64) -> (r: u64)
    requires
        bound > 0,
    ensures
        r == drawn(rng_state(*old(rng)), bound),
        r < bound,
        rng_state(*final(rng)) == state_after(rng_state(*old(rng)), bound),
{
    rng.gen_range(0..bound)
}

/// The 32-bit number below `bound` that a generator draws in a given state.
pub uninterp spec fn drawn_u32(state: nat, bound: u32) -> u32;

/// `Rng::gen_range(0..bound)` of `u32`: a number below `bound`, which state and
/// bound determine.
#[verifier::external_body]
fn draw_below_u32(rng: rand::rngs::StdRng, bound: u32) -> (r: u32)
    requires
        bound > 0,
    ensures
        r == drawn_u32(rng_state(rng), bound),
        r < bound,
{
    let mut rng = rng;
    rng.gen_range(0..bound)
}

/// The state of a generator after one draw for each of the bounds.
pub open spec fn state_past(state: nat, bounds: Seq<u64>) -> nat
    decreases bounds.len(),
{
    if bounds.len() == 0 {
        state
    } else {
        state_after(state_past(state, bounds.drop_last()), bounds.last())
    }
}

/// The numbers that a generator made from `seed` draws in turn, the `i`-th
/// below `bounds[i]`.
pub open spec fn seeded_draws(seed: Seq<u8>, bounds: Seq<u64>) -> Seq<u64> {
    Seq::new(
        bounds.len(),
        |i: int| drawn(state_past(seeded_state(seed), bounds.take(i)), bounds[i]),
    )
}

/// The byte strings that a sequence of vectors holds.
pub open spec fn views(items: Seq<Vec<u8>>) -> Seq<Seq<u8>> {
    Seq::new(items.len(), |i: int| items[i]@)
}

/// The keys of a listing.
pub open spec fn keys_of(entries: Seq<(Seq<u8>, u64)>) -> Seq<Seq<u8>> {
    Seq::new(entries.len(), |i: int| entries[i].0)
}

/// The sequence with two of its positions exchanged.
pub open spec fn exchanged<T>(items: Seq<T>, i: int, j: int) -> Seq<T> {
    items.update(i, items[j]).update(j, items[i])
}

/// A Fisher-Yates shuffle driven by `draws`: the `k`-th draw says with which
/// position the `k`-th position from the end is exchanged.
pub open spec fn fisher_yates<T>(items: Seq<T>, draws: Seq<u64>) -> Seq<T>
    decreases draws.len(),
{
    if draws.len() == 0 {
        items
    } else {
        exchanged(
            fisher_yates(items, draws.drop_last()),
            items.len() - draws.len(),
            draws.last() as int,
        )
    }
}

/// The bounds of a shuffle of `n` items: `n`, `n - 1`, down to 2.
pub open spec fn shuffle_bounds(n: nat) -> Seq<u64> {
    Seq::new((n - 1) as nat, |k: int| (n - k) as u64)
}

/// The shuffle of `items` for one epoch and chain tip.
pub open spec fn epoch_shuffle(items: Seq<Seq<u8>>, epoch: u64, prev_hash: Seq<u8>) -> Seq<Seq<u8>> {
    if items.len() == 0 {
        items
    } else {
        fisher_yates(
            items,
            seeded_draws(
                selection_seed(SHARD_SHUFFLE_DOMAIN, epoch, prev_hash, Seq::empty()),
                shuffle_bounds(items.len()),
            ),
        )
    }
}

/// The draws stay within the positions that are still to be placed.
pub open spec fn draws_in_range(n: nat, draws: Seq<u64>) -> bool {
    &&& draws.len() < n || n == 0 && draws.len() == 0
    &&& forall|k: int| 0 <= k < draws.len() ==> #[trigger] draws[k] < n - k
}

/// A shuffle only reorders: whatever the draws, the outcome holds each item
/// exactly as often as before.
pub proof fn shuffle_is_a_permutation<T>(items: Seq<T>, draws: Seq<u64>)
    requires
        draws_in_range(items.len(), draws),
    ensures
        fisher_yates(items, draws).to_multiset() == items.to_multiset(),
        fisher_yates(items, draws).len() == items.len(),
    decreases draws.len(),
{
    if draws.len() > 0 {
        let prev = fisher_yates(items, draws.drop_last());
        assert(draws_in_range(items.len(), draws.drop_last())) by {
            assert forall|k: int| 0 <= k < draws.drop_last().len() implies #[trigger]
                draws.drop_last()[k] < items.len() - k by {
                assert(draws[k] < items.len() - k);
            }
        }
        shuffle_is_a_permutation(items, draws.drop_last());
        let i = items.len() - draws.len();
        let j = draws.last() as int;
        assert(draws[draws.len() - 1] < items.len() - (draws.len() - 1));
        lemma_exchange_multiset(prev, i, j);
    }
}

proof fn lemma_exchange_multiset<T>(items: Seq<T>, i: int, j: int)
    requires
        0 <= i < items.len(),
        0 <= j < items.len(),
    ensures
        exchanged(items, i, j).to_multiset() == items.to_multiset(),
{
    broadcast use vstd::seq_lib::group_to_multiset_ensures;

    let first = items.update(i, items[j]);
    vstd::seq_lib::to_multiset_update(items, i, items[j]);
    vstd::seq_lib::to_multiset_update(first, j, items[i]);
    assert(items.to_multiset().count(items[i]) > 0);
    assert(exchanged(items, i, j).to_multiset() =~= items.to_multiset());
}

/// Exchange two positions of a vector.
fn exchange(items: &mut Vec<Vec<u8>>, i: usize, j: usize)
    requires
        i < old(items)@.len(),
        j < old(items)@.len(),
    ensures
        views(final(items)@) == exchanged(views(old(items)@), i as int, j as int),
        final(items)@.len() == old(items)@.len(),
{
    let ghost before = views(items@);
    let a = copy_bytes(&items[i]);
    let b = copy_bytes(&items[j]);
    items[i] = b;
    items[j] = a;
    assert(views(items@) =~= exchanged(before, i as int, j as int));
}

/// Deterministic permutation of executor keys, computed once at construction.
pub struct Shuffler {
    /// The keys in their shuffled order.
    last_permutation: Vec<Vec<u8>>,
}

impl Shuffler {
    /// The shuffled keys.
    pub closed spec fn permutation(&self) -> Seq<Seq<u8>> {
        views(self.last_permutation@)
    }

    /// Create a new shuffler from `items`, seeded per epoch and per chain tip.
    pub fn new(items: Vec<Vec<u8>>, epoch_number: u64, prev_block_hash: &[u8]) -> (r: Self)
        ensures
            r.permutation() == epoch_shuffle(views(items@), epoch_number, prev_block_hash@),
            r.permutation().to_multiset() == views(items@).to_multiset(),
    {
        let seed = derive_selection_seed(SHARD_SHUFFLE_DOMAIN, epoch_number, prev_block_hash, &[]);
        assert(seed@ == selection_seed(
            SHARD_SHUFFLE_DOMAIN,
            epoch_number,
            prev_block_hash@,
            Seq::empty(),
        )) by {
            assert(Seq::<u8>::empty() =~= (&[0u8; 0])@);
        }
        let n = items.len();
        if n == 0 {
            return Shuffler { last_permutation: items };
        }
        let ghost bounds = shuffle_bounds(n as nat);
        let ghost start = seeded_state(seed@);
        let mut rng = seeded_rng(&seed);
        let mut draws: Vec<u64> = Vec::with_capacity(n);
        let mut k: usize = 0;
        assert(bounds.take(0) =~= Seq::empty());
        while k < n - 1
            invariant
                k <= n - 1,
                n >= 1,
                bounds == shuffle_bounds(n as nat),
                start == seeded_state(seed@),
                rng_state(rng) == state_past(start, bounds.take(k as int)),
                draws@.len() == k,
                forall|i: int|
                    0 <= i < k ==> #[trigger] draws@[i] == drawn(
                        state_past(start, bounds.take(i)),
                        bounds[i],
                    ) && draws@[i] < n - i,
            decreases n - k,
        {
            assert(bounds[k as int] == n - k);
            assert(bounds.take(k + 1).drop_last() =~= bounds.take(k as int));
            draws.push(draw_below(&mut rng, (n - k) as u64));
            k += 1;
        }
        assert(draws@ =~= seeded_draws(seed@, bounds));
        proof {
            shuffle_is_a_permutation(views(items@), draws@);
        }
        Shuffler { last_permutation: shuffle_with(items, &draws) }
    }

    /// Return the shuffled executor keys for this epoch.
    pub fn shuffle(&self) -> (r: &[Vec<u8>])
        ensures
            views(r@) == self.permutation(),
    {
        self.last_permutation.as_slice()
    }
}

/// Shuffle `items` as the draws say.
pub fn shuffle_with(items: Vec<Vec<u8>>, draws: &Vec<u64>) -> (r: Vec<Vec<u8>>)
    requires
        draws_in_range(items@.len(), draws@),
    ensures
        views(r@) == fisher_yates(views(items@), draws@),
{
    let ghost start = views(items@);
    let mut items = items;
    let n = items.len();
    let mut k: usize = 0;
    assert(draws@.take(0) =~= Seq::empty());
    while k < draws.len()
        invariant
            k <= draws@.len(),
            items@.len() == n,
            start.len() == n,
            draws_in_range(n as nat, draws@),
            views(items@) == fisher_yates(start, draws@.take(k as int)),
        decreases draws@.len() - k,
    {
        let ghost next = draws@.take(k + 1);
        assert(draws@[k as int] < n - k);
        exchange(&mut items, n - 1 - k, draws[k] as usize);
        proof {
            assert(next.drop_last() =~= draws@.take(k as int));
            assert(next.last() == draws@[k as int]);
        }
        k += 1;
    }
    assert(draws@.take(k as int) =~= draws@);
    items
}

/// The entry at `i` owns the point `target`: it has stake, the stakes up to and
/// with it reach `target`, and no earlier entry with stake does.
pub open spec fn owns_point(entries: Seq<(Seq<u8>, u64)>, target: u64, i: int) -> bool {
    &&& 0 <= i < entries.len()
    &&& entries[i].1 > 0
    &&& crate::epoch::stake_sets::stake_sum(entries.take(i + 1)) >= target
    &&& forall|j: int|
        0 <= j < i && entries[j].1 > 0 ==> crate::epoch::stake_sets::stake_sum(
            #[trigger] entries.take(j + 1),
        ) < target
}

/// The key that owns the point `target` of the stake range.
pub open spec fn point_owner(entries: Seq<(Seq<u8>, u64)>, target: u64) -> Seq<u8> {
    entries[choose|i: int| owns_point(entries, target, i)].0
}

/// At most one entry owns a point.
pub proof fn lemma_owner_unique(entries: Seq<(Seq<u8>, u64)>, target: u64, i: int)
    requires
        owns_point(entries, target, i),
    ensures
        point_owner(entries, target) == entries[i].0,
{
    let c = choose|i: int| owns_point(entries, target, i);
    if c < i {
        assert(crate::epoch::stake_sets::stake_sum(entries.take(c + 1)) < target);
    }
    if i < c {
        assert(crate::epoch::stake_sets::stake_sum(entries.take(i + 1)) < target);
    }
}

/// An entry owns as many points as it has stake: of the points above 0 exactly
/// those behind the stakes before it, up to and with its own; the first entry
/// with stake owns the point 0 as well.
pub proof fn stake_owns_its_range(entries: Seq<(Seq<u8>, u64)>, i: int, target: u64)
    requires
        0 <= i < entries.len(),
    ensures
        target > 0 ==> (owns_point(entries, target, i) <==> crate::epoch::stake_sets::stake_sum(
            entries.take(i),
        ) < target <= crate::epoch::stake_sets::stake_sum(entries.take(i + 1))),
        owns_point(entries, 0, i) <==> entries[i].1 > 0 && crate::epoch::stake_sets::stake_sum(
            entries.take(i),
        ) == 0,
{
    crate::epoch::stake_sets::lemma_stake_sum_take(entries, i);
    lemma_prefixes_below(entries, i, target);
    lemma_prefixes_below(entries, i, 0);
}

/// The stakes before `i` stay below `target` exactly where none of the entries
/// with stake before `i` reaches it.
proof fn lemma_prefixes_below(entries: Seq<(Seq<u8>, u64)>, i: int, target: u64)
    requires
        0 <= i <= entries.len(),
    ensures
        (forall|j: int|
            0 <= j < i && entries[j].1 > 0 ==> crate::epoch::stake_sets::stake_sum(
                #[trigger] entries.take(j + 1),
            ) < target) <==> crate::epoch::stake_sets::stake_sum(entries.take(i)) < target
            || crate::epoch::stake_sets::stake_sum(entries.take(i)) == 0,
    decreases i,
{
    assert(entries.take(0) =~= Seq::empty());
    if i > 0 {
        lemma_prefixes_below(entries, i - 1, target);
        crate::epoch::stake_sets::lemma_stake_sum_take(entries, i - 1);
        let last = entries.take(i - 1 + 1);
        assert(last == entries.take(i));
        let sum = crate::epoch::stake_sets::stake_sum(last);
        if sum < target || sum == 0 {
            assert forall|j: int| 0 <= j < i && entries[j].1 > 0 implies
                crate::epoch::stake_sets::stake_sum(#[trigger] entries.take(j + 1)) < target by {
                if j == i - 1 {
                    assert(entries.take(j + 1) == last);
                }
            }
        } else if entries[i - 1].1 > 0 {
            assert(!(crate::epoch::stake_sets::stake_sum(entries.take(i - 1 + 1)) < target));
        }
    }
}

/// The key with stake that owns the point `target`, walking the keys in order.
/// `None` where no stake reaches `target`.
pub fn stake_owner(stakers: &StakeSet, target: u64) -> (r: Option<Vec<u8>>)
    ensures
        r matches Some(key) ==> exists|i: int|
            owns_point(stakers.stakers.listing(), target, i) && key@
                == stakers.stakers.listing()[i].0,
        r matches Some(key) ==> key@ == point_owner(stakers.stakers.listing(), target),
        r is None ==> forall|i: int|
            0 <= i < stakers.stakers.listing().len() && stakers.stakers.listing()[i].1 > 0
                ==> crate::epoch::stake_sets::stake_sum(
                #[trigger] stakers.stakers.listing().take(i + 1),
            ) < target,
{
    let ghost entries = stakers.stakers.listing();
    let mut cumulative: u64 = 0;
    let mut i: usize = 0;
    assert(entries.take(0) =~= Seq::empty());
    while i < stakers.stakers.len()
        invariant
            i <= entries.len(),
            entries == stakers.stakers.listing(),
            cumulative == crate::epoch::stake_sets::saturated(
                crate::epoch::stake_sets::stake_sum(entries.take(i as int)),
            ),
            forall|j: int|
                0 <= j < i && entries[j].1 > 0 ==> crate::epoch::stake_sets::stake_sum(
                    #[trigger] entries.take(j + 1),
                ) < target,
        decreases entries.len() - i,
    {
        let stake = *stakers.stakers.value_at(i);
        proof {
            crate::epoch::stake_sets::lemma_stake_sum_take(entries, i as int);
        }
        cumulative = cumulative.saturating_add(stake);
        if stake > 0 && cumulative >= target {
            proof {
                assert(owns_point(entries, target, i as int));
                lemma_owner_unique(entries, target, i as int);
            }
            return Some(copy_bytes(stakers.stakers.key_at(i)));
        }
        i += 1;
    }
    None
}

/// The point of the stake range that a selection draws.
pub open spec fn selection_point(
    total: u64,
    domain: u8,
    seed_bytes: Seq<u8>,
    epoch: u64,
    prev_hash: Seq<u8>,
) -> u64 {
    drawn(seeded_state(selection_seed(domain, epoch, prev_hash, seed_bytes)), total)
}

/// Whom a selection picks out of a listing of stakes: nobody where nothing is
/// staked, else the owner of the point drawn below the total.
pub open spec fn selected(
    entries: Seq<(Seq<u8>, u64)>,
    domain: u8,
    seed_bytes: Seq<u8>,
    epoch: u64,
    prev_hash: Seq<u8>,
) -> Option<Seq<u8>> {
    let total = crate::epoch::stake_sets::saturated(crate::epoch::stake_sets::stake_sum(entries));
    if total == 0 {
        None
    } else {
        Some(point_owner(entries, selection_point(total, domain, seed_bytes, epoch, prev_hash)))
    }
}

/// Every point below the total has an owner, and its owner has stake.
pub proof fn every_point_has_an_owner(entries: Seq<(Seq<u8>, u64)>, target: u64)
    requires
        target < crate::epoch::stake_sets::stake_sum(entries),
    ensures
        exists|i: int| owns_point(entries, target, i),
{
    assert(entries.take(0) =~= Seq::empty());
    lemma_first_reaching_from(entries, target, 0);
}

proof fn lemma_first_reaching_from(entries: Seq<(Seq<u8>, u64)>, target: u64, from: int)
    requires
        0 <= from <= entries.len(),
        crate::epoch::stake_sets::stake_sum(entries) > target,
        crate::epoch::stake_sets::stake_sum(entries.take(from)) <= target,
        forall|j: int|
            0 <= j < from && entries[j].1 > 0 ==> crate::epoch::stake_sets::stake_sum(
                #[trigger] entries.take(j + 1),
            ) < target,
    ensures
        exists|i: int| owns_point(entries, target, i),
    decreases entries.len() - from,
{
    assert(entries.take(entries.len() as int) =~= entries);
    if from < entries.len() {
        crate::epoch::stake_sets::lemma_stake_sum_take(entries, from);
        if entries[from].1 > 0 && crate::epoch::stake_sets::stake_sum(entries.take(from + 1))
            >= target {
            assert(owns_point(entries, target, from));
        } else {
            lemma_first_reaching_from(entries, target, from + 1);
        }
    }
}

/// Select a staker, weighted by stake, with a seed bound to `domain`, the
/// epoch, the chain tip and `seed_bytes`. Keys without stake are never picked.
pub fn deterministic_select(
    stakers: &StakeSet,
    domain: u8,
    seed_bytes: &[u8],
    epoch_number: u64,
    prev_block_hash: &[u8],
) -> (r: Option<Vec<u8>>)
    ensures
        match (r, selected(
            stakers.stakers.listing(),
            domain,
            seed_bytes@,
            epoch_number,
            prev_block_hash@,
        )) {
            (Some(key), Some(expected)) => key@ == expected,
            (None, None) => true,
            _ => false,
        },
        r matches Some(key) ==> stakers.stakers@.contains_key(key@) && stakers.stakers@[key@] > 0,
{
    let ghost entries = stakers.stakers.listing();
    let total = stakers.total_stake();
    if total == 0 {
        return None;
    }
    let seed = derive_selection_seed(domain, epoch_number, prev_block_hash, seed_bytes);
    let mut rng = seeded_rng(&seed);
    let target = draw_below(&mut rng, total);
    proof {
        every_point_has_an_owner(entries, target);
    }
    let r = stake_owner(stakers, target);
    proof {
        let i = choose|i: int| owns_point(entries, target, i);
        assert(entries.take(i + 1).len() == i + 1);
        assert(r is Some);
        let key = r->0;
        let k = choose|k: int| owns_point(entries, target, k) && key@ == entries[k].0;
        use_type_invariant(&stakers.stakers);
        stakers.stakers.lemma_listing();
        assert(stakers.stakers@.contains_key(entries[k].0));
    }
    r
}

/// The first position with the smallest value.
pub open spec fn first_minimum(values: Seq<u64>, i: int) -> bool {
    &&& 0 <= i < values.len()
    &&& forall|j: int| 0 <= j < values.len() ==> values[i] <= #[trigger] values[j]
    &&& forall|j: int| 0 <= j < i ==> values[i] < #[trigger] values[j]
}

/// The position of the first smallest value.
pub open spec fn lightest(values: Seq<u64>) -> int {
    choose|i: int| first_minimum(values, i)
}

/// The stake that each shard holds after handing out `executors` in order, each
/// to the shard with the least stake so far, the first where several are equal.
pub open spec fn shard_stakes(executors: Seq<(Seq<u8>, u64)>, shard_count: nat) -> Seq<u64>
    decreases executors.len(),
{
    if executors.len() == 0 {
        Seq::new(shard_count, |i: int| 0u64)
    } else {
        let before = shard_stakes(executors.drop_last(), shard_count);
        let t = lightest(before);
        before.update(
            t,
            crate::epoch::stake_sets::saturated(before[t] as nat + executors.last().1 as nat),
        )
    }
}

/// The keys that each shard holds after handing out `executors`.
pub open spec fn shard_members(executors: Seq<(Seq<u8>, u64)>, shard_count: nat) -> Seq<
    Seq<Seq<u8>>,
>
    decreases executors.len(),
{
    if executors.len() == 0 {
        Seq::new(shard_count, |i: int| Seq::empty())
    } else {
        let before = shard_members(executors.drop_last(), shard_count);
        let t = lightest(shard_stakes(executors.drop_last(), shard_count));
        before.update(t, before[t].push(executors.last().0))
    }
}

/// The keys that have stake, in the given order, each with its stake.
pub open spec fn with_stake(keys: Seq<Seq<u8>>, stakes: Map<Seq<u8>, u64>) -> Seq<(Seq<u8>, u64)>
    decreases keys.len(),
{
    if keys.len() == 0 {
        Seq::empty()
    } else {
        let before = with_stake(keys.drop_last(), stakes);
        let stake = crate::epoch::stake_sets::stake_of(stakes, keys.last());
        if stake > 0 {
            before.push((keys.last(), stake))
        } else {
            before
        }
    }
}

/// The entries that a sequence of vectors with stakes holds.
pub open spec fn entry_views(items: Seq<(Vec<u8>, u64)>) -> Seq<(Seq<u8>, u64)> {
    Seq::new(items.len(), |i: int| (items[i].0@, items[i].1))
}

/// The shards that a sequence of vectors holds.
pub open spec fn shard_views(shards: Seq<Vec<Vec<u8>>>) -> Seq<Seq<Seq<u8>>> {
    Seq::new(shards.len(), |i: int| views(shards[i]@))
}

/// Which executors a transaction is routed to.
pub open spec fn selected_shard(
    entries: Seq<(Seq<u8>, u64)>,
    stakes: Map<Seq<u8>, u64>,
    shard_count: u32,
    tx_id: Seq<u8>,
    epoch: u64,
    prev_hash: Seq<u8>,
) -> Option<Seq<Seq<u8>>> {
    if entries.len() == 0 || shard_count == 0 {
        None
    } else if shard_count == 1 {
        Some(keys_of(with_stake(keys_of(entries), stakes)))
    } else {
        let order = epoch_shuffle(keys_of(entries), epoch, prev_hash);
        let index = drawn_u32(
            seeded_state(selection_seed(SHARD_INDEX_DOMAIN, epoch, prev_hash, tx_id)),
            shard_count,
        );
        let shard = shard_members(with_stake(order, stakes), shard_count as nat)[index as int];
        if shard.len() == 0 {
            None
        } else {
            Some(shard)
        }
    }
}

/// The position of the first smallest value.
fn lightest_shard(stakes: &Vec<u64>) -> (r: usize)
    requires
        stakes@.len() > 0,
    ensures
        r == lightest(stakes@),
        r < stakes@.len(),
{
    let mut best: usize = 0;
    let mut i: usize = 1;
    while i < stakes.len()
        invariant
            1 <= i <= stakes@.len(),
            best < i,
            forall|j: int| 0 <= j < i ==> stakes@[best as int] <= #[trigger] stakes@[j],
            forall|j: int| 0 <= j < best ==> stakes@[best as int] < #[trigger] stakes@[j],
        decreases stakes@.len() - i,
    {
        if stakes[i] < stakes[best] {
            best = i;
        }
        i += 1;
    }
    proof {
        assert(first_minimum(stakes@, best as int));
        let c = lightest(stakes@);
        assert(first_minimum(stakes@, c));
        assert(stakes@[c] <= stakes@[best as int] && stakes@[best as int] <= stakes@[c]);
    }
    best
}

/// The keys among `keys` that have stake, each with its stake.
fn staked_keys(keys: &[Vec<u8>], executors: &ExecutorSet) -> (r: Vec<(Vec<u8>, u64)>)
    ensures
        entry_views(r@) == with_stake(views(keys@), executors.executors@),
{
    let mut r: Vec<(Vec<u8>, u64)> = Vec::new();
    let mut i: usize = 0;
    assert(views(keys@).take(0) =~= Seq::empty());
    assert(entry_views(r@) =~= with_stake(views(keys@).take(0), executors.executors@));
    while i < keys.len()
        invariant
            i <= keys@.len(),
            entry_views(r@) == with_stake(views(keys@).take(i as int), executors.executors@),
        decreases keys@.len() - i,
    {
        let stake = executors.get_stake(&keys[i]);
        proof {
            assert(views(keys@).take(i + 1).drop_last() =~= views(keys@).take(i as int));
            assert(views(keys@).take(i + 1).last() == keys@[i as int]@);
        }
        let ghost before = r@;
        if stake > 0 {
            r.push((copy_bytes(&keys[i]), stake));
            assert(entry_views(r@) =~= entry_views(before).push((keys@[i as int]@, stake)));
        }
        i += 1;
    }
    assert(views(keys@).take(i as int) =~= views(keys@));
    r
}

/// The shard `shard_index` after handing `executors` out in order to
/// `shard_count` shards, each to the shard with the least stake so far.
pub fn shard_of(executors: &Vec<(Vec<u8>, u64)>, shard_count: u32, shard_index: u32) -> (r: Vec<
    Vec<u8>,
>)
    requires
        shard_index < shard_count,
    ensures
        views(r@) == shard_members(entry_views(executors@), shard_count as nat)[shard_index as int],
{
    let n: usize = shard_count as usize;
    let mut stakes: Vec<u64> = Vec::new();
    let mut shards: Vec<Vec<Vec<u8>>> = Vec::new();
    let mut i: usize = 0;
    while i < n
        invariant
            i <= n,
            stakes@.len() == i,
            shards@.len() == i,
            forall|j: int| 0 <= j < i ==> stakes@[j] == 0,
            forall|j: int| 0 <= j < i ==> (#[trigger] shards@[j])@.len() == 0,
        decreases n - i,
    {
        stakes.push(0);
        shards.push(Vec::new());
        i += 1;
    }
    let ghost all = entry_views(executors@);
    assert(stakes@ =~= shard_stakes(all.take(0), n as nat));
    assert(shard_views(shards@) =~= shard_members(all.take(0), n as nat)) by {
        assert forall|j: int| 0 <= j < n implies views(shards@[j]@) == Seq::<Seq<u8>>::empty() by {
            assert(views(shards@[j]@) =~= Seq::<Seq<u8>>::empty());
        }
    }
    let mut k: usize = 0;
    while k < executors.len()
        invariant
            k <= executors@.len(),
            n == shard_count,
            n > 0,
            all == entry_views(executors@),
            stakes@.len() == n,
            shards@.len() == n,
            stakes@ == shard_stakes(all.take(k as int), n as nat),
            shard_views(shards@) == shard_members(all.take(k as int), n as nat),
        decreases executors@.len() - k,
    {
        let ghost before_shards = shards@;
        let t = lightest_shard(&stakes);
        let stake = executors[k].1;
        let key = copy_bytes(&executors[k].0);
        let ghost key_view = key@;
        let heavier = stakes[t].saturating_add(stake);
        stakes[t] = heavier;
        let mut shard: Vec<Vec<u8>> = Vec::new();
        std::mem::swap(&mut shard, &mut shards[t]);
        shard.push(key);
        shards[t] = shard;
        proof {
            let next = all.take(k + 1);
            assert(next.drop_last() =~= all.take(k as int));
            assert(next.last() == (executors@[k as int].0@, stake));
            assert(stakes@ =~= shard_stakes(next, n as nat));
            let before = shard_members(all.take(k as int), n as nat);
            assert(views(shards@[t as int]@) =~= before[t as int].push(key_view)) by {
                assert(before[t as int] == views(before_shards[t as int]@));
            }
            assert forall|j: int| 0 <= j < n && j != t implies views(shards@[j]@) == before[j] by {
                assert(before[j] == views(before_shards[j]@));
            }
            assert(shard_views(shards@) =~= shard_members(next, n as nat));
        }
        k += 1;
    }
    assert(all.take(k as int) =~= all);
    let r = shards.swap_remove(shard_index as usize);
    assert(views(r@) == shard_members(all, n as nat)[shard_index as int]);
    r
}

/// Select which executors should handle a transaction. The executors are
/// shuffled for the epoch and handed out to `shard_count` stake-balanced
/// shards; the shard index is drawn from a seed bound to the transaction.
/// Executors without stake belong to no shard.
pub fn deterministic_select_shard(
    executors: &ExecutorSet,
    shard_count: u32,
    tx_id: &str,
    epoch_number: u64,
    prev_block_hash: &[u8],
) -> (r: Option<Vec<Vec<u8>>>)
    ensures
        match (r, selected_shard(
            executors.executors.listing(),
            executors.executors@,
            shard_count,
            vstd::utf8::encode_utf8(tx_id@),
            epoch_number,
            prev_block_hash@,
        )) {
            (Some(keys), Some(expected)) => views(keys@) == expected,
            (None, None) => true,
            _ => false,
        },
        r matches Some(keys) ==> forall|i: int|
            0 <= i < keys@.len() ==> crate::epoch::stake_sets::stake_of(
                executors.executors@,
                (#[trigger] keys@[i])@,
            ) > 0,
{
    let ghost entries = executors.executors.listing();
    if executors.is_empty() || shard_count == 0 {
        return None;
    }
    if shard_count == 1 {
        let keys = executors.sorted_keys();
        assert(views(keys@) =~= keys_of(entries));
        let staked = staked_keys(&keys, executors);
        let keys = entry_keys(&staked);
        proof {
            staked_keys_have_stake(keys_of(entries), executors.executors@);
            assert forall|i: int| 0 <= i < keys@.len() implies crate::epoch::stake_sets::stake_of(
                executors.executors@,
                (#[trigger] keys@[i])@,
            ) > 0 by {
                assert(views(keys@)[i] == keys@[i]@);
            }
        }
        return Some(keys);
    }
    let seed = derive_selection_seed(
        SHARD_INDEX_DOMAIN,
        epoch_number,
        prev_block_hash,
        tx_id.as_bytes(),
    );
    let shard_index = draw_below_u32(seeded_rng(&seed), shard_count);
    let shuffler = executors.shuffler(epoch_number, prev_block_hash);
    let staked = staked_keys(shuffler.shuffle(), executors);
    let shard = shard_of(&staked, shard_count, shard_index);
    proof {
        let order = shuffler.permutation();
        staked_keys_have_stake(order, executors.executors@);
        shards_partition_the_executors(entry_views(staked@), shard_count as nat);
        let shards = shard_members(entry_views(staked@), shard_count as nat);
        assert forall|i: int| 0 <= i < shard@.len() implies crate::epoch::stake_sets::stake_of(
            executors.executors@,
            (#[trigger] shard@[i])@,
        ) > 0 by {
            assert(views(shard@)[i] == shard@[i]@);
            lemma_member_of_shard(shards, shard_index as int, i);
            lemma_counted_key(keys_of(entry_views(staked@)), shard@[i]@);
        }
    }
    if shard.len() == 0 {
        None
    } else {
        Some(shard)
    }
}

/// The keys of a list of entries.
fn entry_keys(entries: &Vec<(Vec<u8>, u64)>) -> (r: Vec<Vec<u8>>)
    ensures
        views(r@) == keys_of(entry_views(entries@)),
{
    let mut r: Vec<Vec<u8>> = Vec::new();
    let mut i: usize = 0;
    while i < entries.len()
        invariant
            i <= entries@.len(),
            r@.len() == i,
            forall|j: int| 0 <= j < i ==> (#[trigger] r@[j])@ == entries@[j].0@,
        decreases entries@.len() - i,
    {
        r.push(copy_bytes(&entries[i].0));
        i += 1;
    }
    assert(views(r@) =~= keys_of(entry_views(entries@)));
    r
}

/// Stake-weighted leader selection.
pub struct LeaderSelector;

impl LeaderSelector {
    pub fn new() -> Self {
        LeaderSelector
    }
}

impl Default for LeaderSelector {
    fn default() -> Self {
        LeaderSelector
    }
}

/// The leader that a listing of stakes has for an epoch: empty where nothing is
/// staked.
pub open spec fn elected(entries: Seq<(Seq<u8>, u64)>, epoch: u64, prev_hash: Seq<u8>) -> Seq<u8> {
    match selected(entries, LEADER_DOMAIN, Seq::empty(), epoch, prev_hash) {
        Some(key) => key,
        None => Seq::empty(),
    }
}

impl IEpochLeaderSelector for LeaderSelector {
    fn select(&self, stakers: &StakeSet, epoch_number: u64, prev_block_hash: &[u8]) -> (r: Vec<u8>)
        ensures
            r@ == elected(stakers.stakers.listing(), epoch_number, prev_block_hash@),
    {
        assert(Seq::<u8>::empty() =~= (&[0u8; 0])@);
        match deterministic_select(stakers, LEADER_DOMAIN, &[], epoch_number, prev_block_hash) {
            Some(key) => key,
            None => Vec::new(),
        }
    }
}

/// Every node with the same stakes selects the same staker, however its stake
/// set was filled.
pub proof fn selection_follows_the_stakes(
    a: &StakeSet,
    b: &StakeSet,
    domain: u8,
    seed_bytes: Seq<u8>,
    epoch: u64,
    prev_hash: Seq<u8>,
)
    requires
        a.stakers.wf(),
        b.stakers.wf(),
        a.stakers@ == b.stakers@,
    ensures
        selected(a.stakers.listing(), domain, seed_bytes, epoch, prev_hash) == selected(
            b.stakers.listing(),
            domain,
            seed_bytes,
            epoch,
            prev_hash,
        ),
        elected(a.stakers.listing(), epoch, prev_hash) == elected(
            b.stakers.listing(),
            epoch,
            prev_hash,
        ),
{
    crate::epoch::stake_sets::fingerprint_is_order_independent(&a.stakers, &b.stakers);
}

/// Every node with the same executors routes a transaction to the same shard,
/// however its executor set was filled.
pub proof fn routing_follows_the_executors(
    a: &ExecutorSet,
    b: &ExecutorSet,
    shard_count: u32,
    tx_id: Seq<u8>,
    epoch: u64,
    prev_hash: Seq<u8>,
)
    requires
        a.executors.wf(),
        b.executors.wf(),
        a.executors@ == b.executors@,
    ensures
        selected_shard(
            a.executors.listing(),
            a.executors@,
            shard_count,
            tx_id,
            epoch,
            prev_hash,
        ) == selected_shard(
            b.executors.listing(),
            b.executors@,
            shard_count,
            tx_id,
            epoch,
            prev_hash,
        ),
{
    crate::epoch::stake_sets::fingerprint_is_order_independent(&a.executors, &b.executors);
}

/// Every key in any of the shards, as often as it occurs.
pub open spec fn all_members(shards: Seq<Seq<Seq<u8>>>) -> vstd::multiset::Multiset<Seq<u8>>
    decreases shards.len(),
{
    if shards.len() == 0 {
        vstd::multiset::Multiset::empty()
    } else {
        all_members(shards.drop_last()).add(shards.last().to_multiset())
    }
}

proof fn lemma_member_added(shards: Seq<Seq<Seq<u8>>>, t: int, key: Seq<u8>)
    requires
        0 <= t < shards.len(),
    ensures
        all_members(shards.update(t, shards[t].push(key))) == all_members(shards).insert(key),
    decreases shards.len(),
{
    broadcast use vstd::seq_lib::group_to_multiset_ensures;

    let next = shards.update(t, shards[t].push(key));
    if t == shards.len() - 1 {
        assert(next.drop_last() =~= shards.drop_last());
    } else {
        assert(next.drop_last() =~= shards.drop_last().update(t, shards[t].push(key)));
        lemma_member_added(shards.drop_last(), t, key);
    }
    assert(all_members(next) =~= all_members(shards).insert(key));
}

proof fn lemma_lightest_in_range(values: Seq<u64>)
    requires
        values.len() > 0,
    ensures
        0 <= lightest(values) < values.len(),
        first_minimum(values, lightest(values)),
{
    lemma_minimum_exists(values);
}

proof fn lemma_minimum_exists(values: Seq<u64>)
    requires
        values.len() > 0,
    ensures
        exists|i: int| first_minimum(values, i),
    decreases values.len(),
{
    if values.len() == 1 {
        assert(first_minimum(values, 0));
    } else {
        let init = values.drop_last();
        lemma_minimum_exists(init);
        let i = choose|i: int| first_minimum(init, i);
        assert(forall|j: int| 0 <= j < init.len() ==> init[j] == #[trigger] values[j]);
        if values.last() < values[i] {
            assert(first_minimum(values, values.len() - 1));
        } else {
            assert(first_minimum(values, i));
        }
    }
}

/// Sharding loses nobody and doubles nobody: the shards together hold exactly
/// the executors that were handed out.
pub proof fn shards_partition_the_executors(executors: Seq<(Seq<u8>, u64)>, shard_count: nat)
    requires
        shard_count > 0,
    ensures
        shard_members(executors, shard_count).len() == shard_count,
        shard_stakes(executors, shard_count).len() == shard_count,
        all_members(shard_members(executors, shard_count)) == keys_of(executors).to_multiset(),
    decreases executors.len(),
{
    broadcast use vstd::seq_lib::group_to_multiset_ensures;

    if executors.len() == 0 {
        assert(keys_of(executors) =~= Seq::empty());
        lemma_no_members(shard_members(executors, shard_count));
        assert(keys_of(executors).to_multiset() =~= vstd::multiset::Multiset::empty());
    } else {
        let init = executors.drop_last();
        shards_partition_the_executors(init, shard_count);
        let t = lightest(shard_stakes(init, shard_count));
        lemma_lightest_in_range(shard_stakes(init, shard_count));
        lemma_member_added(shard_members(init, shard_count), t, executors.last().0);
        assert(keys_of(executors) =~= keys_of(init).push(executors.last().0));
    }
}

proof fn lemma_no_members(shards: Seq<Seq<Seq<u8>>>)
    requires
        forall|i: int| 0 <= i < shards.len() ==> (#[trigger] shards[i]).len() == 0,
    ensures
        all_members(shards) == vstd::multiset::Multiset::<Seq<u8>>::empty(),
    decreases shards.len(),
{
    broadcast use vstd::seq_lib::group_to_multiset_ensures;

    if shards.len() > 0 {
        assert forall|i: int| 0 <= i < shards.drop_last().len() implies (
        #[trigger] shards.drop_last()[i]).len() == 0 by {
            assert(shards[i].len() == 0);
        }
        lemma_no_members(shards.drop_last());
        assert(shards[shards.len() - 1].len() == 0);
        assert(shards.last() =~= Seq::empty());
        assert(all_members(shards) =~= vstd::multiset::Multiset::empty());
    }
}

proof fn lemma_member_of_shard(shards: Seq<Seq<Seq<u8>>>, t: int, i: int)
    requires
        0 <= t < shards.len(),
        0 <= i < shards[t].len(),
    ensures
        all_members(shards).count(shards[t][i]) > 0,
    decreases shards.len(),
{
    broadcast use vstd::seq_lib::group_to_multiset_ensures;

    if t == shards.len() - 1 {
        assert(shards.last().contains(shards[t][i]));
    } else {
        assert(shards.drop_last()[t] == shards[t]);
        lemma_member_of_shard(shards.drop_last(), t, i);
    }
}

proof fn lemma_counted_key(keys: Seq<Seq<u8>>, key: Seq<u8>)
    requires
        keys.to_multiset().count(key) > 0,
    ensures
        exists|i: int| 0 <= i < keys.len() && keys[i] == key,
{
    broadcast use vstd::seq_lib::group_to_multiset_ensures;

    assert(keys.contains(key));
}

/// What is handed out to the shards are the keys with stake, in their order.
pub proof fn staked_keys_have_stake(keys: Seq<Seq<u8>>, stakes: Map<Seq<u8>, u64>)
    ensures
        keys_of(with_stake(keys, stakes)) == keys.filter(
            |key: Seq<u8>| crate::epoch::stake_sets::stake_of(stakes, key) > 0,
        ),
        forall|i: int|
            0 <= i < with_stake(keys, stakes).len() ==> (#[trigger] with_stake(keys, stakes)[i]).1
                > 0 && with_stake(keys, stakes)[i].1 == crate::epoch::stake_sets::stake_of(
                stakes,
                with_stake(keys, stakes)[i].0,
            ),
    decreases keys.len(),
{
    reveal(Seq::filter);
    if keys.len() > 0 {
        staked_keys_have_stake(keys.drop_last(), stakes);
        let before = with_stake(keys.drop_last(), stakes);
        assert(keys_of(before.push((keys.last(), crate::epoch::stake_sets::stake_of(stakes, keys.last()))))
            =~= keys_of(before).push(keys.last()));
    } else {
        assert(keys_of(with_stake(keys, stakes)) =~= Seq::empty());
    }
}

/// Who is selected depends on the purpose, the epoch, the chain tip and the
/// salt, all of them through the digest of their bytes, and on the stakes in key
/// order: the point that is drawn below the total picks the key whose range of
/// stake it falls into. Nobody is selected where nothing is staked.
pub proof fn selection_is_drawn_by_stake(
    entries: Seq<(Seq<u8>, u64)>,
    domain: u8,
    salt: Seq<u8>,
    epoch: u64,
    tip: Seq<u8>,
    i: int,
)
    requires
        0 <= i < entries.len(),
        crate::epoch::stake_sets::stake_sum(entries) <= u64::MAX,
    ensures
        ({
            let total = crate::epoch::stake_sets::stake_sum(entries);
            let before = crate::epoch::stake_sets::stake_sum(entries.take(i));
            let seed = crate::primitives::sha256_digest(
                seq![domain] + crate::bytes::be_bytes(epoch as nat, 8) + tip + salt,
            )@;
            let point = drawn(seeded_state(seed), total as u64);
            &&& total == 0 ==> selected(entries, domain, salt, epoch, tip) is None
            &&& total > 0 && before < point <= before + entries[i].1 ==> selected(
                entries,
                domain,
                salt,
                epoch,
                tip,
            ) == Some(entries[i].0)
            &&& total > 0 && point == 0 && before == 0 && entries[i].1 > 0 ==> selected(
                entries,
                domain,
                salt,
                epoch,
                tip,
            ) == Some(entries[i].0)
        }),
{
    let total = crate::epoch::stake_sets::stake_sum(entries);
    let point = selection_point(total as u64, domain, salt, epoch, tip);
    crate::epoch::stake_sets::lemma_stake_sum_take(entries, i);
    stake_owns_its_range(entries, i, point);
    if owns_point(entries, point, i) {
        lemma_owner_unique(entries, point, i);
    }
}

/// The purposes of a selection are told apart by the byte that leads its seed:
/// leaders, shuffles, finalizers and shard indexes are drawn from different bytes.
pub proof fn purposes_are_told_apart(epoch: u64, tip: Seq<u8>, extra: Seq<u8>, other: Seq<u8>)
    ensures
        LEADER_DOMAIN == 1 && SHARD_SHUFFLE_DOMAIN == 2 && FINALIZER_DOMAIN == 3
            && SHARD_INDEX_DOMAIN == 4,
        seed_input(LEADER_DOMAIN, epoch, tip, extra) != seed_input(
            FINALIZER_DOMAIN,
            epoch,
            tip,
            other,
        ),
        seed_input(SHARD_SHUFFLE_DOMAIN, epoch, tip, extra) != seed_input(
            SHARD_INDEX_DOMAIN,
            epoch,
            tip,
            other,
        ),
{
    assert(seed_input(LEADER_DOMAIN, epoch, tip, extra)[0] == 1);
    assert(seed_input(FINALIZER_DOMAIN, epoch, tip, other)[0] == 3);
    assert(seed_input(SHARD_SHUFFLE_DOMAIN, epoch, tip, extra)[0] == 2);
    assert(seed_input(SHARD_INDEX_DOMAIN, epoch, tip, other)[0] == 4);
}

/// The leader of an epoch is selected for the purpose `0x01` without a salt, so
/// every node with the same stakes, epoch and tip elects the same one; a finalizer
/// or a shard is drawn from other bytes.
pub proof fn leaders_are_selected_for_their_purpose(
    entries: Seq<(Seq<u8>, u64)>,
    epoch: u64,
    tip: Seq<u8>,
    i: int,
)
    requires
        0 <= i < entries.len(),
        crate::epoch::stake_sets::stake_sum(entries) <= u64::MAX,
    ensures
        ({
            let total = crate::epoch::stake_sets::stake_sum(entries);
            let before = crate::epoch::stake_sets::stake_sum(entries.take(i));
            let seed = crate::primitives::sha256_digest(
                seq![0x01u8] + crate::bytes::be_bytes(epoch as nat, 8) + tip,
            )@;
            let point = drawn(seeded_state(seed), total as u64);
            &&& total == 0 ==> elected(entries, epoch, tip).len() == 0
            &&& total > 0 && before < point <= before + entries[i].1 ==> elected(
                entries,
                epoch,
                tip,
            ) == entries[i].0
            &&& total > 0 && point == 0 && before == 0 && entries[i].1 > 0 ==> elected(
                entries,
                epoch,
                tip,
            ) == entries[i].0
        }),
{
    let bytes = seq![0x01u8] + crate::bytes::be_bytes(epoch as nat, 8) + tip;
    assert(bytes + Seq::<u8>::empty() =~= bytes);
    selection_is_drawn_by_stake(entries, 0x01, Seq::empty(), epoch, tip, i);
}

/// The draws follow each other: the first is made in the state that the seed
/// gives, each other one in the state that the draw before it left.
pub proof fn draws_follow_each_other(seed: Seq<u8>, bounds: Seq<u64>)
    ensures
        seeded_draws(seed, bounds).len() == bounds.len(),
        exists|states: Seq<nat>|
            #![trigger states.len()]
            states.len() == bounds.len() + 1 && states[0] == seeded_state(seed) && (forall|i: int|
                0 <= i < bounds.len() ==> #[trigger] states[i + 1] == state_after(
                    states[i],
                    bounds[i],
                )) && (forall|i: int|
                0 <= i < bounds.len() ==> #[trigger] seeded_draws(seed, bounds)[i] == drawn(
                    states[i],
                    bounds[i],
                )),
{
    let states = Seq::new(
        (bounds.len() + 1) as nat,
        |i: int| state_past(seeded_state(seed), bounds.take(i)),
    );
    assert(bounds.take(0) =~= Seq::empty());
    assert forall|i: int| 0 <= i < bounds.len() implies #[trigger] states[i + 1] == state_after(
        states[i],
        bounds[i],
    ) by {
        assert(bounds.take(i + 1).drop_last() =~= bounds.take(i));
        assert(bounds.take(i + 1).last() == bounds[i]);
    }
    assert(states.len() == bounds.len() + 1);
}

/// The shuffle places the item that each draw names: the `k`-th draw fills the
/// `k`-th position from the end with the item that then stands where the draw
/// says, and no later draw moves it.
pub proof fn each_draw_places_an_item<T>(items: Seq<T>, draws: Seq<u64>, k: int)
    requires
        draws_in_range(items.len(), draws),
        0 <= k < draws.len(),
    ensures
        fisher_yates(items, draws)[items.len() - 1 - k] == fisher_yates(items, draws.take(k))[draws[k] as int],
        fisher_yates(items, Seq::empty()) == items,
    decreases draws.len(),
{
    let n = items.len();
    let init = draws.drop_last();
    assert(draws_in_range(n, init)) by {
        assert forall|j: int| 0 <= j < init.len() implies #[trigger] init[j] < n - j by {
            assert(draws[j] < n - j);
        }
    }
    shuffle_is_a_permutation(items, init);
    let prev = fisher_yates(items, init);
    let last = draws.len() - 1;
    assert(draws[last] < n - last);
    if k == last {
        assert(draws.take(k) =~= init);
    } else {
        each_draw_places_an_item(items, init, k);
        assert(init.take(k) =~= draws.take(k));
        assert(init[k] == draws[k]);
    }
}

/// The executors are shuffled anew for each epoch and each chain tip, and not
/// for each transaction: the draws come from the digest of the purpose `0x02`,
/// the epoch and the tip.
pub proof fn shuffles_are_drawn_per_epoch(items: Seq<Seq<u8>>, epoch: u64, tip: Seq<u8>)
    requires
        0 < items.len() <= u64::MAX,
    ensures
        exists|draws: Seq<u64>, bounds: Seq<u64>|
            #![trigger draws.len(), bounds.len()]
            bounds.len() == items.len() - 1 && (forall|k: int|
                0 <= k < bounds.len() ==> #[trigger] bounds[k] == items.len() - k) && draws
                == seeded_draws(
                crate::primitives::sha256_digest(
                    seq![0x02u8] + crate::bytes::be_bytes(epoch as nat, 8) + tip,
                )@,
                bounds,
            ) && draws.len() == bounds.len() && epoch_shuffle(items, epoch, tip) == fisher_yates(
                items,
                draws,
            ),
{
    let bytes = seq![0x02u8] + crate::bytes::be_bytes(epoch as nat, 8) + tip;
    assert(bytes + Seq::<u8>::empty() =~= bytes);
    let bounds = shuffle_bounds(items.len());
    let draws = seeded_draws(crate::primitives::sha256_digest(bytes)@, bounds);
    assert(draws.len() == bounds.len());
    assert forall|k: int| 0 <= k < bounds.len() implies #[trigger] bounds[k] == items.len() - k by {}
}

/// Transactions are spread over the shards by their ids. For one epoch and chain
/// tip there is one partition of the executors with stake into `shard_count`
/// shards, and each transaction goes to the shard whose index is drawn from the
/// digest of the purpose `0x04`, the epoch, the tip and the id of the transaction;
/// it goes to nobody only where that shard has no executor.
pub proof fn transactions_are_spread_by_their_ids(
    entries: Seq<(Seq<u8>, u64)>,
    stakes: Map<Seq<u8>, u64>,
    shard_count: u32,
    epoch: u64,
    tip: Seq<u8>,
)
    requires
        entries.len() > 0,
        shard_count > 1,
    ensures
        exists|shards: Seq<Seq<Seq<u8>>>|
            shards.len() == shard_count && #[trigger] all_members(shards) == epoch_shuffle(
                keys_of(entries),
                epoch,
                tip,
            ).filter(|key: Seq<u8>| stakes.contains_key(key) && stakes[key] > 0).to_multiset()
                && forall|tx_id: Seq<u8>|
                ({
                    let index = drawn_u32(
                        seeded_state(
                            crate::primitives::sha256_digest(
                                seq![0x04u8] + crate::bytes::be_bytes(epoch as nat, 8) + tip
                                    + tx_id,
                            )@,
                        ),
                        shard_count,
                    );
                    #[trigger] selected_shard(entries, stakes, shard_count, tx_id, epoch, tip) == (
                    if shards[index as int].len() == 0 {
                        None
                    } else {
                        Some(shards[index as int])
                    })
                }),
{
    let order = epoch_shuffle(keys_of(entries), epoch, tip);
    let staked = with_stake(order, stakes);
    let shards = shard_members(staked, shard_count as nat);
    shards_partition_the_executors(staked, shard_count as nat);
    staked_keys_have_stake(order, stakes);
    let has_stake = |key: Seq<u8>| stakes.contains_key(key) && stakes[key] > 0;
    lemma_same_filter(
        order,
        |key: Seq<u8>| crate::epoch::stake_sets::stake_of(stakes, key) > 0,
        has_stake,
    );
    assert(all_members(shards) == order.filter(has_stake).to_multiset());
}

proof fn lemma_same_filter(
    keys: Seq<Seq<u8>>,
    p: spec_fn(Seq<u8>) -> bool,
    q: spec_fn(Seq<u8>) -> bool,
)
    requires
        forall|key: Seq<u8>| #[trigger] p(key) == q(key),
    ensures
        keys.filter(p) == keys.filter(q),
    decreases keys.len(),
{
    reveal(Seq::filter);
    if keys.len() > 0 {
        lemma_same_filter(keys.drop_last(), p, q);
    }
}

/// Without sharding every executor with stake handles every transaction, in key
/// order; without executors, or without shards, nobody does.
pub proof fn unsharded_transactions_reach_every_executor(
    entries: Seq<(Seq<u8>, u64)>,
    stakes: Map<Seq<u8>, u64>,
    tx_id: Seq<u8>,
    epoch: u64,
    tip: Seq<u8>,
)
    ensures
        entries.len() > 0 ==> selected_shard(entries, stakes, 1, tx_id, epoch, tip) == Some(
            keys_of(entries).filter(|key: Seq<u8>| stakes.contains_key(key) && stakes[key] > 0),
        ),
        selected_shard(entries, stakes, 0, tx_id, epoch, tip) is None,
        entries.len() == 0 ==> forall|n: u32|
            (#[trigger] selected_shard(entries, stakes, n, tx_id, epoch, tip)) is None,
{
    staked_keys_have_stake(keys_of(entries), stakes);
    lemma_same_filter(
        keys_of(entries),
        |key: Seq<u8>| crate::epoch::stake_sets::stake_of(stakes, key) > 0,
        |key: Seq<u8>| stakes.contains_key(key) && stakes[key] > 0,
    );
}

/// What the keys of a shard have staked together.
pub open spec fn staked_together(keys: Seq<Seq<u8>>, stakes: Map<Seq<u8>, u64>) -> nat
    decreases keys.len(),
{
    if keys.len() == 0 {
        0
    } else {
        staked_together(keys.drop_last(), stakes) + crate::epoch::stake_sets::stake_of(
            stakes,
            keys.last(),
        ) as nat
    }
}

/// The shards are balanced by stake: what any two of them hold differs by no more
/// than the largest single stake.
pub proof fn shards_are_balanced(
    executors: Seq<(Seq<u8>, u64)>,
    stakes: Map<Seq<u8>, u64>,
    shard_count: nat,
    largest: u64,
    a: int,
    b: int,
)
    requires
        0 <= a < shard_count,
        0 <= b < shard_count,
        crate::epoch::stake_sets::stake_sum(executors) <= u64::MAX,
        forall|i: int|
            0 <= i < executors.len() ==> (#[trigger] executors[i]).1 <= largest && executors[i].1
                == crate::epoch::stake_sets::stake_of(stakes, executors[i].0),
    ensures
        staked_together(shard_members(executors, shard_count)[a], stakes) <= staked_together(
            shard_members(executors, shard_count)[b],
            stakes,
        ) + largest,
{
    lemma_shard_loads(executors, stakes, shard_count);
    lemma_loads_close(executors, shard_count, largest);
    let loads = shard_stakes(executors, shard_count);
    assert(loads[a] <= loads[b] + largest);
}

/// The running stakes of the shards are what their members have staked.
proof fn lemma_shard_loads(
    executors: Seq<(Seq<u8>, u64)>,
    stakes: Map<Seq<u8>, u64>,
    shard_count: nat,
)
    requires
        shard_count > 0,
        crate::epoch::stake_sets::stake_sum(executors) <= u64::MAX,
        forall|i: int|
            0 <= i < executors.len() ==> (#[trigger] executors[i]).1
                == crate::epoch::stake_sets::stake_of(stakes, executors[i].0),
    ensures
        shard_stakes(executors, shard_count).len() == shard_count,
        shard_members(executors, shard_count).len() == shard_count,
        forall|i: int|
            0 <= i < shard_count ==> #[trigger] shard_stakes(executors, shard_count)[i]
                == staked_together(shard_members(executors, shard_count)[i], stakes),
        forall|i: int|
            0 <= i < shard_count ==> #[trigger] shard_stakes(executors, shard_count)[i]
                <= crate::epoch::stake_sets::stake_sum(executors),
    decreases executors.len(),
{
    if executors.len() > 0 {
        let init = executors.drop_last();
        assert forall|i: int| 0 <= i < init.len() implies (#[trigger] init[i]).1
            == crate::epoch::stake_sets::stake_of(stakes, init[i].0) by {
            assert(executors[i] == init[i]);
        }
        lemma_shard_loads(init, stakes, shard_count);
        let before = shard_stakes(init, shard_count);
        let members = shard_members(init, shard_count);
        let t = lightest(before);
        lemma_lightest_in_range(before);
        let last = executors[executors.len() - 1];
        assert(members[t].push(last.0).drop_last() =~= members[t]);
        assert(before[t] <= crate::epoch::stake_sets::stake_sum(init));
        assert forall|i: int| 0 <= i < shard_count implies #[trigger] shard_stakes(
            executors,
            shard_count,
        )[i] == staked_together(shard_members(executors, shard_count)[i], stakes) by {
            assert(before[i] == staked_together(members[i], stakes));
        }
        assert forall|i: int| 0 <= i < shard_count implies #[trigger] shard_stakes(
            executors,
            shard_count,
        )[i] <= crate::epoch::stake_sets::stake_sum(executors) by {
            assert(before[i] <= crate::epoch::stake_sets::stake_sum(init));
        }
    }
}

proof fn lemma_loads_close(executors: Seq<(Seq<u8>, u64)>, shard_count: nat, largest: u64)
    requires
        shard_count > 0,
        forall|i: int| 0 <= i < executors.len() ==> (#[trigger] executors[i]).1 <= largest,
    ensures
        shard_stakes(executors, shard_count).len() == shard_count,
        forall|a: int, b: int|
            0 <= a < shard_count && 0 <= b < shard_count ==> #[trigger] shard_stakes(
                executors,
                shard_count,
            )[a] <= #[trigger] shard_stakes(executors, shard_count)[b] + largest,
    decreases executors.len(),
{
    if executors.len() > 0 {
        let init = executors.drop_last();
        assert forall|i: int| 0 <= i < init.len() implies (#[trigger] init[i]).1 <= largest by {
            assert(executors[i] == init[i]);
        }
        lemma_loads_close(init, shard_count, largest);
        let before = shard_stakes(init, shard_count);
        let after = shard_stakes(executors, shard_count);
        let t = lightest(before);
        lemma_lightest_in_range(before);
        assert(executors[executors.len() - 1].1 <= largest);
        assert forall|a: int, b: int| 0 <= a < shard_count && 0 <= b < shard_count implies
            #[trigger] after[a] <= #[trigger] after[b] + largest by {
            assert(before[a] <= before[b] + largest);
            assert(before[t] <= before[b]);
        }
    }
}

} // verus!
