//! `CandidateRegistry`: competing blocks at each position of a chain, bounded
//! per position.
use crate::blocks::Block;
use crate::bytes::{copy_bytes, make_pair_key};
use crate::keyed_store::KeyedStore;
use vstd::prelude::*;

verus! {

/// The key of a position: the token and the previous hash.
pub open spec fn position_key(token_id: Seq<u8>, previous_hash: Seq<u8>) -> Seq<u8> {
    crate::bytes::pair_key(token_id, previous_hash)
}

/// Different positions have different keys.
pub proof fn positions_are_separate(
    token1: Seq<u8>,
    hash1: Seq<u8>,
    token2: Seq<u8>,
    hash2: Seq<u8>,
)
    requires
        token1.len() <= u64::MAX,
        token2.len() <= u64::MAX,
        position_key(token1, hash1) == position_key(token2, hash2),
    ensures
        token1 == token2,
        hash1 == hash2,
{
    crate::bytes::lemma_pair_key_injective(token1, hash1, token2, hash2);
}

/// The last `max` items.
pub open spec fn newest<T>(items: Seq<T>, max: nat) -> Seq<T> {
    if items.len() > max {
        items.skip(items.len() - max)
    } else {
        items
    }
}

/// Several candidates compete for one position.
pub open spec fn conflicted<T>(candidates: Seq<T>) -> bool {
    candidates.len() >= 2
}

/// Two candidates are copies of one another.
pub open spec fn same_candidate(a: (Block, Vec<u8>), b: (Block, Vec<u8>)) -> bool {
    crate::blocks::same_block(a.0, b.0) && a.1@ == b.1@
}

/// Block candidates by position. Two or more at one position are a fork. Each
/// position holds a bounded number; the oldest leave first.
pub struct CandidateRegistry {
    candidates: KeyedStore<Vec<(Block, Vec<u8>)>>,
    max_candidates: usize,
}

impl CandidateRegistry {
    /// Upper bound on the number of candidates kept at one position.
    pub const DEFAULT_MAX_CANDIDATES: usize = 1024;

    /// The positions with candidates, each with its candidates, oldest first.
    pub closed spec fn positions(&self) -> Map<Seq<u8>, Vec<(Block, Vec<u8>)>> {
        self.candidates@
    }

    /// How many candidates one position holds at most.
    pub closed spec fn cap(&self) -> nat {
        self.max_candidates as nat
    }

    /// The candidates at a position, oldest first.
    pub open spec fn at(&self, token_id: Seq<u8>, previous_hash: Seq<u8>) -> Seq<
        (Block, Vec<u8>),
    > {
        if self.positions().contains_key(position_key(token_id, previous_hash)) {
            self.positions()[position_key(token_id, previous_hash)]@
        } else {
            Seq::empty()
        }
    }

    /// The index is consistent, and no position is empty or over the cap.
    pub closed spec fn wf(&self) -> bool {
        &&& self.candidates.wf()
        &&& self.max_candidates > 0
        &&& forall|key: Seq<u8>| #[trigger]
            self.candidates@.contains_key(key) ==> 0 < self.candidates@[key]@.len()
                <= self.max_candidates
    }

    /// The registry is bounded at every position.
    pub proof fn positions_are_bounded(&self, token_id: Seq<u8>, previous_hash: Seq<u8>)
        requires
            self.wf(),
        ensures
            self.at(token_id, previous_hash).len() <= self.cap(),
            self.positions().contains_key(position_key(token_id, previous_hash)) <==> self.at(
                token_id,
                previous_hash,
            ).len() > 0,
    {
    }

    pub fn new() -> (r: Self)
        ensures
            r.wf(),
            r.positions() == Map::<Seq<u8>, Vec<(Block, Vec<u8>)>>::empty(),
            r.cap() == CandidateRegistry::DEFAULT_MAX_CANDIDATES,
    {
        CandidateRegistry {
            candidates: KeyedStore::new(),
            max_candidates: CandidateRegistry::DEFAULT_MAX_CANDIDATES,
        }
    }

    /// Build a registry with an explicit cap per position, at least one.
    pub fn with_max_candidates(max_candidates: usize) -> (r: Self)
        ensures
            r.wf(),
            r.positions() == Map::<Seq<u8>, Vec<(Block, Vec<u8>)>>::empty(),
            r.cap() == (if max_candidates == 0 {
                1
            } else {
                max_candidates as nat
            }),
    {
        CandidateRegistry {
            candidates: KeyedStore::new(),
            max_candidates: if max_candidates == 0 {
                1
            } else {
                max_candidates
            },
        }
    }

    /// Add a candidate behind those at its position; the oldest leave where
    /// there are too many.
    pub fn insert(
        &mut self,
        token_id: Vec<u8>,
        previous_hash: Vec<u8>,
        block: Block,
        proposer_key: Vec<u8>,
    )
        requires
            old(self).wf(),
        ensures
            final(self).wf(),
            final(self).cap() == old(self).cap(),
            final(self).at(token_id@, previous_hash@) == newest(
                old(self).at(token_id@, previous_hash@).push((block, proposer_key)),
                old(self).cap(),
            ),
            final(self).positions().remove(position_key(token_id@, previous_hash@)) == old(
                self,
            ).positions().remove(position_key(token_id@, previous_hash@)),
    {
        let key = make_pair_key(&token_id, &previous_hash);
        let ghost before = self.candidates@;
        let ghost pushed = old(self).at(token_id@, previous_hash@).push((block, proposer_key));
        let max = self.max_candidates;
        match self.candidates.get_mut(&key) {
            Some(entry) => {
                entry.push((block, proposer_key));
                while entry.len() > max
                    invariant
                        max > 0,
                        entry@ == newest(pushed, entry@.len()),
                        entry@.len() <= pushed.len(),
                        entry@.len() <= max ==> entry@.len() == newest(pushed, max as nat).len(),
                    decreases entry@.len(),
                {
                    let ghost now = entry@;
                    let _ = entry.remove(0);
                    assert(entry@ =~= now.skip(1));
                    assert(entry@ =~= newest(pushed, entry@.len()));
                }
            },
            None => {
                let entry: Vec<(Block, Vec<u8>)> = vec![(block, proposer_key)];
                assert(entry@ =~= pushed);
                let _ = self.candidates.insert(key, entry);
            },
        }
        assert(self.candidates@.remove(position_key(token_id@, previous_hash@)) =~= before.remove(
            position_key(token_id@, previous_hash@),
        ));
        assert forall|k: Seq<u8>| #[trigger] self.candidates@.contains_key(k) implies 0
            < self.candidates@[k]@.len() <= self.max_candidates by {
            if k != position_key(token_id@, previous_hash@) {
                assert(before.contains_key(k));
            }
        }
    }

    /// Copies of all candidates at a position, oldest first.
    pub fn get_candidates(&self, token_id: &[u8], previous_hash: &[u8]) -> (r: Vec<
        (Block, Vec<u8>),
    >)
        requires
            self.wf(),
        ensures
            r@.len() == self.at(token_id@, previous_hash@).len(),
            forall|i: int|
                0 <= i < r@.len() ==> same_candidate(
                    #[trigger] r@[i],
                    self.at(token_id@, previous_hash@)[i],
                ),
    {
        let mut r: Vec<(Block, Vec<u8>)> = Vec::new();
        match self.candidates.get(&make_pair_key(token_id, previous_hash)) {
            Some(entry) => {
                let mut i: usize = 0;
                while i < entry.len()
                    invariant
                        i <= entry@.len(),
                        r@.len() == i,
                        forall|j: int|
                            0 <= j < i ==> same_candidate(#[trigger] r@[j], entry@[j]),
                    decreases entry@.len() - i,
                {
                    r.push((entry[i].0.clone(), copy_bytes(&entry[i].1)));
                    i += 1;
                }
                r
            },
            None => r,
        }
    }

    /// Check if there are two or more candidates at a position.
    pub fn has_conflict(&self, token_id: &[u8], previous_hash: &[u8]) -> (r: bool)
        requires
            self.wf(),
        ensures
            r == (self.at(token_id@, previous_hash@).len() >= 2),
            r == conflicted(self.at(token_id@, previous_hash@)),
    {
        match self.candidates.get(&make_pair_key(token_id, previous_hash)) {
            Some(entry) => entry.len() >= 2,
            None => false,
        }
    }

    /// The number of candidates at a position.
    pub fn candidate_count(&self, token_id: &[u8], previous_hash: &[u8]) -> (r: usize)
        requires
            self.wf(),
        ensures
            r == self.at(token_id@, previous_hash@).len(),
    {
        match self.candidates.get(&make_pair_key(token_id, previous_hash)) {
            Some(entry) => entry.len(),
            None => 0,
        }
    }

    /// Remove all candidates at a position; tells how many there were.
    pub fn remove_conflicted(&mut self, token_id: &[u8], previous_hash: &[u8]) -> (r: usize)
        requires
            old(self).wf(),
        ensures
            final(self).wf(),
            final(self).cap() == old(self).cap(),
            r == old(self).at(token_id@, previous_hash@).len(),
            final(self).positions() == old(self).positions().remove(
                position_key(token_id@, previous_hash@),
            ),
    {
        let ghost before = self.candidates@;
        let removed = self.candidates.remove(&make_pair_key(token_id, previous_hash));
        assert forall|k: Seq<u8>| #[trigger] self.candidates@.contains_key(k) implies 0
            < self.candidates@[k]@.len() <= self.max_candidates by {
            assert(before.contains_key(k));
        }
        match removed {
            Some(entry) => entry.len(),
            None => 0,
        }
    }

    /// Number of positions with candidates.
    pub fn len(&self) -> (r: usize)
        requires
            self.wf(),
        ensures
            r == self.positions().dom().len(),
            self.positions().dom().finite(),
    {
        self.candidates.len()
    }

    /// Returns true if no position has candidates.
    pub fn is_empty(&self) -> (r: bool)
        requires
            self.wf(),
        ensures
            r == (self.positions() == Map::<Seq<u8>, Vec<(Block, Vec<u8>)>>::empty()),
    {
        let n = self.candidates.len();
        proof {
            if n == 0 {
                assert(self.positions().dom() =~= Set::empty());
                assert(self.positions() =~= Map::<Seq<u8>, Vec<(Block, Vec<u8>)>>::empty());
            }
        }
        n == 0
    }
}

impl Default for CandidateRegistry {
    fn default() -> (r: Self)
        ensures
            r.wf(),
            r.positions() == Map::<Seq<u8>, Vec<(Block, Vec<u8>)>>::empty(),
            r.cap() == CandidateRegistry::DEFAULT_MAX_CANDIDATES,
    {
        CandidateRegistry::new()
    }
}

/// Of the candidates at a position the latest stay, in their order, and never
/// more than the cap: what was added last is always among them, and none leaves
/// while there is room.
pub proof fn newest_candidates_stay<T>(items: Seq<T>, added: T, max: nat)
    requires
        max > 0,
    ensures
        ({
            let kept = newest(items.push(added), max);
            &&& kept.len() > 0
            &&& kept.last() == added
            &&& kept.len() <= max
            &&& items.len() < max ==> kept == items.push(added)
            &&& items.len() >= max ==> kept.len() == max
            &&& forall|i: int|
                0 <= i < kept.len() ==> #[trigger] kept[i] == items.push(added)[items.len() + 1
                    - kept.len() + i]
        }),
{
}

/// One candidate is no conflict; a second one at the same position is, unless only
/// one is kept.
pub proof fn a_second_candidate_is_a_conflict<T>(items: Seq<T>, added: T, max: nat)
    requires
        max > 0,
    ensures
        conflicted(newest(items.push(added), max)) <==> items.len() > 0 && max > 1,
        !conflicted(Seq::<T>::empty()),
{
}

/// Unless told otherwise, a registry keeps 1024 candidates at a position.
pub proof fn candidates_are_bounded_by_default()
    ensures
        CandidateRegistry::DEFAULT_MAX_CANDIDATES == 1024,
{
}

/// A copy of a candidate holds the same block under the same proposer.
pub proof fn copied_candidates_are_the_same(a: (Block, Vec<u8>), b: (Block, Vec<u8>))
    requires
        same_candidate(a, b),
    ensures
        crate::blocks::block_hash(a.0) == crate::blocks::block_hash(b.0),
        a.0.current_hash@ == b.0.current_hash@,
        a.0.previous_hash@ == b.0.previous_hash@,
        a.1@ == b.1@,
{
    crate::blocks::copied_blocks_hash_the_same(a.0, b.0);
}

/// A candidate is filed under its token and its previous hash: one added at a
/// position leaves every other position as it was.
pub proof fn positions_do_not_mix(
    before: CandidateRegistry,
    after: CandidateRegistry,
    token: Seq<u8>,
    hash: Seq<u8>,
    other_token: Seq<u8>,
    other_hash: Seq<u8>,
)
    requires
        token.len() <= u64::MAX,
        other_token.len() <= u64::MAX,
        token != other_token || hash != other_hash,
        after.positions().remove(position_key(token, hash)) == before.positions().remove(
            position_key(token, hash),
        ),
    ensures
        after.at(other_token, other_hash) == before.at(other_token, other_hash),
{
    let key = position_key(token, hash);
    let other = position_key(other_token, other_hash);
    if key == other {
        positions_are_separate(token, hash, other_token, other_hash);
    }
    assert(after.positions().remove(key).contains_key(other) == after.positions().contains_key(
        other,
    ));
    assert(before.positions().remove(key).contains_key(other) == before.positions().contains_key(
        other,
    ));
    assert(after.positions().remove(key)[other] == after.positions()[other]);
    assert(before.positions().remove(key)[other] == before.positions()[other]);
}

/// A position is empty where nothing is filed under it, and holds what is.
pub proof fn candidates_are_found_at_their_position(
    registry: CandidateRegistry,
    token: Seq<u8>,
    hash: Seq<u8>,
)
    ensures
        ({
            let key = crate::bytes::be_bytes(token.len(), 8) + token + hash;
            &&& registry.positions().contains_key(key) ==> registry.at(token, hash)
                == registry.positions()[key]@
            &&& !registry.positions().contains_key(key) ==> registry.at(token, hash).len() == 0
        }),
{
}

} // verus!
