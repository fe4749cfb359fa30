//! `NullifierRegistry`: the spent-nullifier set, marked singly or in
//! all-or-nothing batches.
use crate::errors::{PneumaticError, ValidationFailureReason};
use crate::keyed_store::KeyedStore;
use vstd::prelude::*;

verus! {

/// Tells whether a shielded-note nullifier was spent.
pub trait NullifierMembership {
    fn contains_nullifier(&self, nullifier: [u8; 32]) -> bool;
}

/// The set of every spent shielded-note nullifier. Apart from `unmark_many`,
/// which undoes a recorded batch on rollback, nothing is ever removed.
pub struct NullifierRegistry {
    nullifiers: KeyedStore<()>,
}

impl View for NullifierRegistry {
    type V = Set<Seq<u8>>;

    closed spec fn view(&self) -> Set<Seq<u8>> {
        self.nullifiers@.dom()
    }
}

/// The result of spending a nullifier that was spent before.
pub open spec fn stale<T>(r: Result<T, PneumaticError>) -> bool {
    r matches Err(PneumaticError::Validation(reasons)) && reasons@
        == seq![ValidationFailureReason::StaleNullifier]
}

/// The byte strings of a batch.
pub open spec fn batch_set(batch: Seq<[u8; 32]>) -> Set<Seq<u8>> {
    Set::new(|n: Seq<u8>| exists|i: int| 0 <= i < batch.len() && (#[trigger] batch[i])@ == n)
}

/// No nullifier occurs twice in the batch.
pub open spec fn batch_distinct(batch: Seq<[u8; 32]>) -> bool {
    forall|i: int, j: int|
        0 <= i < j < batch.len() ==> (#[trigger] batch[i])@ != (#[trigger] batch[j])@
}

/// The batch can be spent: no nullifier of it was spent, and none occurs twice.
pub open spec fn batch_fresh(spent: Set<Seq<u8>>, batch: Seq<[u8; 32]>) -> bool {
    &&& batch_distinct(batch)
    &&& forall|i: int| 0 <= i < batch.len() ==> !spent.contains((#[trigger] batch[i])@)
}

fn stale_error() -> (r: PneumaticError)
    ensures
        r matches PneumaticError::Validation(reasons) && reasons@
            == seq![ValidationFailureReason::StaleNullifier],
{
    let reasons = vec![ValidationFailureReason::StaleNullifier];
    assert(reasons@ =~= seq![ValidationFailureReason::StaleNullifier]);
    PneumaticError::Validation(reasons)
}

impl NullifierRegistry {
    /// The index behind the set is consistent.
    pub closed spec fn wf(&self) -> bool {
        self.nullifiers.wf()
    }

    pub fn new() -> (r: Self)
        ensures
            r.wf(),
            r@ == Set::<Seq<u8>>::empty(),
    {
        let r = NullifierRegistry { nullifiers: KeyedStore::new() };
        assert(r@ =~= Set::<Seq<u8>>::empty());
        r
    }

    /// Mark a nullifier spent. Fails where it was spent before.
    pub fn try_mark_spent(&mut self, nullifier: [u8; 32]) -> (r: Result<(), PneumaticError>)
        requires
            old(self).wf(),
        ensures
            final(self).wf(),
            final(self)@ == old(self)@.insert(nullifier@),
            r is Ok <==> !old(self)@.contains(nullifier@),
            r is Err ==> stale(r),
            one_marked(old(self)@, nullifier@, final(self)@, r),
    {
        let key = crate::bytes::copy_bytes(nullifier.as_slice());
        let ghost before = self@;
        let old_value = self.nullifiers.insert(key, ());
        assert(self@ =~= before.insert(nullifier@));
        match old_value {
            Some(_) => Err(stale_error()),
            None => Ok(()),
        }
    }

    /// Has this nullifier already been spent?
    pub fn contains(&self, nullifier: [u8; 32]) -> (r: bool)
        ensures
            r == self@.contains(nullifier@),
    {
        self.nullifiers.contains_key(nullifier.as_slice())
    }

    /// Number of nullifiers marked spent.
    pub fn len(&self) -> (r: usize)
        requires
            self.wf(),
        ensures
            self@.finite(),
            r == self@.len(),
    {
        self.nullifiers.len()
    }

    /// True if no nullifier has been marked spent.
    pub fn is_empty(&self) -> (r: bool)
        requires
            self.wf(),
        ensures
            r == (self@ == Set::<Seq<u8>>::empty()),
    {
        let n = self.nullifiers.len();
        proof {
            if n == 0 {
                self@.lemma_len0_is_empty();
            } else {
                assert(self@ == Set::<Seq<u8>>::empty() ==> self@.len() == 0);
            }
        }
        n == 0
    }

    /// Mark a batch of nullifiers spent, all or nothing: where one of them was
    /// spent before, or occurs twice in the batch, none is marked.
    pub fn mark_many_atomic(&mut self, nullifiers: &[[u8; 32]]) -> (r: Result<(), PneumaticError>)
        requires
            old(self).wf(),
        ensures
            final(self).wf(),
            r is Ok <==> batch_fresh(old(self)@, nullifiers@),
            r is Ok ==> final(self)@ == old(self)@.union(batch_set(nullifiers@)),
            r is Err ==> stale(r) && final(self)@ == old(self)@,
            batch_marked(old(self)@, nullifiers@, final(self)@, r),
    {
        let ghost spent = self@;
        let mut i: usize = 0;
        while i < nullifiers.len()
            invariant
                i <= nullifiers@.len(),
                self.wf(),
                self@ == spent,
                spent == old(self)@,
                forall|j: int| 0 <= j < i ==> !spent.contains((#[trigger] nullifiers@[j])@),
            decreases nullifiers@.len() - i,
        {
            if self.contains(nullifiers[i]) {
                assert(spent.contains(nullifiers@[i as int]@));
                return Err(stale_error());
            }
            i += 1;
        }
        let mut k: usize = 0;
        assert(self@ =~= spent.union(batch_set(nullifiers@.take(0))));
        while k < nullifiers.len()
            invariant
                k <= nullifiers@.len(),
                self.wf(),
                spent == old(self)@,
                self@ == spent.union(batch_set(nullifiers@.take(k as int))),
                forall|j: int|
                    0 <= j < nullifiers@.len() ==> !spent.contains((#[trigger] nullifiers@[j])@),
                batch_distinct(nullifiers@.take(k as int)),
            decreases nullifiers@.len() - k,
        {
            let ghost marked = nullifiers@.take(k as int);
            let ghost next = nullifiers@.take(k + 1);
            if self.contains(nullifiers[k]) {
                proof {
                    assert(batch_set(marked).contains(nullifiers@[k as int]@));
                    let j = choose|j: int|
                        0 <= j < marked.len() && (#[trigger] marked[j])@ == nullifiers@[k as int]@;
                    assert(nullifiers@[j]@ == nullifiers@[k as int]@);
                    assert(!batch_distinct(nullifiers@));
                }
                self.roll_back(nullifiers, k, Ghost(spent));
                return Err(stale_error());
            }
            let key = crate::bytes::copy_bytes(nullifiers[k].as_slice());
            let ghost before = self@;
            let _ = self.nullifiers.insert(key, ());
            proof {
                assert(self@ =~= before.insert(nullifiers@[k as int]@));
                assert forall|n: Seq<u8>| #[trigger]
                    batch_set(next).contains(n) == batch_set(marked).insert(
                        nullifiers@[k as int]@,
                    ).contains(n) by {
                    if batch_set(marked).contains(n) {
                        let j = choose|j: int|
                            0 <= j < marked.len() && (#[trigger] marked[j])@ == n;
                        assert(next[j]@ == n);
                    }
                    if n == nullifiers@[k as int]@ {
                        assert(next[k as int]@ == n);
                    }
                    if batch_set(next).contains(n) {
                        let j = choose|j: int| 0 <= j < next.len() && (#[trigger] next[j])@ == n;
                        if j < k {
                            assert(marked[j]@ == n);
                        }
                    }
                }
                assert(self@ =~= spent.union(batch_set(next)));
                assert forall|a: int, b: int| 0 <= a < b < next.len() implies (
                #[trigger] next[a])@ != (#[trigger] next[b])@ by {
                    if b < k {
                        assert(marked[a]@ != marked[b]@);
                    } else {
                        assert(marked[a]@ == next[a]@);
                        assert(batch_set(marked).contains(marked[a]@));
                    }
                }
            }
            k += 1;
        }
        assert(nullifiers@.take(k as int) =~= nullifiers@);
        Ok(())
    }

    /// Take the first `n` nullifiers of a batch out again.
    fn roll_back(&mut self, nullifiers: &[[u8; 32]], n: usize, spent: Ghost<Set<Seq<u8>>>)
        requires
            old(self).wf(),
            n <= nullifiers@.len(),
            old(self)@ == spent@.union(batch_set(nullifiers@.take(n as int))),
            forall|j: int|
                0 <= j < nullifiers@.len() ==> !spent@.contains((#[trigger] nullifiers@[j])@),
        ensures
            final(self).wf(),
            final(self)@ == spent@,
    {
        let mut i: usize = 0;
        let ghost start = self@;
        while i < n
            invariant
                i <= n,
                n <= nullifiers@.len(),
                self.wf(),
                self@ == start.difference(batch_set(nullifiers@.take(i as int))),
            decreases n - i,
        {
            let ghost before = self@;
            let _ = self.nullifiers.remove(nullifiers[i].as_slice());
            proof {
                assert(self@ =~= before.remove(nullifiers@[i as int]@));
                lemma_batch_step(nullifiers@, i as int);
                assert(self@ =~= start.difference(batch_set(nullifiers@.take(i + 1))));
            }
            i += 1;
        }
        proof {
            assert forall|x: Seq<u8>| self@.contains(x) == spent@.contains(x) by {
                if batch_set(nullifiers@.take(n as int)).contains(x) {
                    let j = choose|j: int|
                        0 <= j < nullifiers@.take(n as int).len() && (
                        #[trigger] nullifiers@.take(n as int)[j])@ == x;
                    assert(nullifiers@[j]@ == x);
                }
            }
            assert(self@ =~= spent@);
        }
    }

    /// Remove a batch of nullifiers from the spent set: the inverse of
    /// `mark_many_atomic`, for rolling back a block that lost.
    pub fn unmark_many(&mut self, nullifiers: &[[u8; 32]])
        requires
            old(self).wf(),
        ensures
            final(self).wf(),
            final(self)@ == old(self)@.difference(batch_set(nullifiers@)),
    {
        let ghost start = self@;
        let mut i: usize = 0;
        assert(self@ =~= start.difference(batch_set(nullifiers@.take(0))));
        while i < nullifiers.len()
            invariant
                i <= nullifiers@.len(),
                self.wf(),
                self@ == start.difference(batch_set(nullifiers@.take(i as int))),
            decreases nullifiers@.len() - i,
        {
            let ghost before = self@;
            let _ = self.nullifiers.remove(nullifiers[i].as_slice());
            proof {
                assert(self@ =~= before.remove(nullifiers@[i as int]@));
                lemma_batch_step(nullifiers@, i as int);
                assert(self@ =~= start.difference(batch_set(nullifiers@.take(i + 1))));
            }
            i += 1;
        }
        assert(nullifiers@.take(i as int) =~= nullifiers@);
    }
}

impl Default for NullifierRegistry {
    fn default() -> (r: Self)
        ensures
            r.wf(),
            r@ == Set::<Seq<u8>>::empty(),
    {
        NullifierRegistry::new()
    }
}

impl NullifierMembership for NullifierRegistry {
    fn contains_nullifier(&self, nullifier: [u8; 32]) -> (r: bool)
        ensures
            r == self@.contains(nullifier@),
    {
        self.contains(nullifier)
    }
}

proof fn lemma_batch_step(batch: Seq<[u8; 32]>, i: int)
    requires
        0 <= i < batch.len(),
    ensures
        batch_set(batch.take(i + 1)) =~= batch_set(batch.take(i)).insert(batch[i]@),
{
    let a = batch.take(i);
    let b = batch.take(i + 1);
    assert forall|n: Seq<u8>| #[trigger] batch_set(b).contains(n) == batch_set(a).insert(
        batch[i]@,
    ).contains(n) by {
        if batch_set(a).contains(n) {
            let j = choose|j: int| 0 <= j < a.len() && (#[trigger] a[j])@ == n;
            assert(b[j]@ == n);
        }
        if n == batch[i]@ {
            assert(b[i]@ == n);
        }
        if batch_set(b).contains(n) {
            let j = choose|j: int| 0 <= j < b.len() && (#[trigger] b[j])@ == n;
            if j < i {
                assert(a[j]@ == n);
            }
        }
    }
}

/// No nullifier is spent twice: once a batch that holds a nullifier was marked,
/// every later batch that holds it is refused.
pub proof fn spent_nullifier_is_refused(
    spent: Set<Seq<u8>>,
    first: Seq<[u8; 32]>,
    second: Seq<[u8; 32]>,
    i: int,
    j: int,
)
    requires
        0 <= i < first.len(),
        0 <= j < second.len(),
        first[i]@ == second[j]@,
    ensures
        !batch_fresh(spent.union(batch_set(first)), second),
{
    assert(batch_set(first).contains(first[i]@));
    assert(spent.union(batch_set(first)).contains(second[j]@));
}

/// `after` and `r` are what marking a nullifier leads to.
pub open spec fn one_marked(
    before: Set<Seq<u8>>,
    nullifier: Seq<u8>,
    after: Set<Seq<u8>>,
    r: Result<(), PneumaticError>,
) -> bool {
    &&& after == before.insert(nullifier)
    &&& if before.contains(nullifier) {
        stale(r)
    } else {
        r is Ok
    }
}

/// `after` and `r` are what marking a batch of nullifiers leads to.
pub open spec fn batch_marked(
    before: Set<Seq<u8>>,
    batch: Seq<[u8; 32]>,
    after: Set<Seq<u8>>,
    r: Result<(), PneumaticError>,
) -> bool {
    if batch_fresh(before, batch) {
        r is Ok && after == before.union(batch_set(batch))
    } else {
        stale(r) && after == before
    }
}

/// A note is spent once: the first marking of its nullifier goes through where it
/// was unspent, every further one is refused as stale, and no other note is
/// touched.
pub proof fn notes_are_spent_once(
    before: Set<Seq<u8>>,
    nullifier: Seq<u8>,
    between: Set<Seq<u8>>,
    first: Result<(), PneumaticError>,
    after: Set<Seq<u8>>,
    second: Result<(), PneumaticError>,
    other: Seq<u8>,
)
    requires
        one_marked(before, nullifier, between, first),
        one_marked(between, nullifier, after, second),
        other != nullifier,
    ensures
        first is Ok <==> !before.contains(nullifier),
        second matches Err(PneumaticError::Validation(reasons)) && reasons@
            == seq![ValidationFailureReason::StaleNullifier],
        between.contains(nullifier) && after.contains(nullifier),
        after.contains(other) == before.contains(other),
{
}

/// A batch is spent as a whole or not at all: where one of its nullifiers is spent
/// or occurs twice, it is refused as stale and none of the others is spent by it.
pub proof fn batches_are_spent_as_a_whole(
    before: Set<Seq<u8>>,
    batch: Seq<[u8; 32]>,
    after: Set<Seq<u8>>,
    r: Result<(), PneumaticError>,
    i: int,
)
    requires
        batch_marked(before, batch, after, r),
        0 <= i < batch.len(),
    ensures
        r is Ok ==> !before.contains(batch[i]@) && after.contains(batch[i]@),
        before.contains(batch[i]@) ==> r is Err,
        r is Err ==> after == before,
        r matches Err(e) ==> (e matches PneumaticError::Validation(reasons) && reasons@
            == seq![ValidationFailureReason::StaleNullifier]),
        forall|n: Seq<u8>| #[trigger] after.contains(n) && !before.contains(n) ==> exists|k: int|
            0 <= k < batch.len() && (#[trigger] batch[k])@ == n,
        (forall|k: int| 0 <= k < batch.len() ==> !before.contains((#[trigger] batch[k])@)) && (
        forall|k: int, m: int|
            0 <= k < m < batch.len() ==> (#[trigger] batch[k])@ != (#[trigger] batch[m])@) ==> r
            is Ok,
{
    assert(batch_set(batch).contains(batch[i]@));
}

/// Unmarking a batch that was marked restores the set as it was before.
pub proof fn unmark_undoes_mark(spent: Set<Seq<u8>>, batch: Seq<[u8; 32]>)
    requires
        batch_fresh(spent, batch),
    ensures
        spent.union(batch_set(batch)).difference(batch_set(batch)) == spent,
{
    assert forall|n: Seq<u8>| batch_set(batch).contains(n) implies !spent.contains(n) by {
        let j = choose|j: int| 0 <= j < batch.len() && (#[trigger] batch[j])@ == n;
        assert(!spent.contains(batch[j]@));
    }
    assert(spent.union(batch_set(batch)).difference(batch_set(batch)) =~= spent);
}

/// A batch can be spent exactly where each of its nullifiers is unspent and
/// occurs once; one that occurs twice spoils it.
pub proof fn batches_are_fresh_or_refused(spent: Set<Seq<u8>>, batch: Seq<[u8; 32]>)
    ensures
        (forall|i: int| 0 <= i < batch.len() ==> !spent.contains((#[trigger] batch[i])@)) && (
        forall|i: int, j: int|
            0 <= i < batch.len() && 0 <= j < batch.len() && i != j ==> (#[trigger] batch[i])@ != (
            #[trigger] batch[j])@) <==> batch_fresh(spent, batch),
        forall|i: int, j: int|
            0 <= i < j < batch.len() && (#[trigger] batch[i])@ == (#[trigger] batch[j])@
                ==> !batch_fresh(spent, batch),
        forall|n: Seq<u8>| #[trigger]
            batch_set(batch).contains(n) <==> exists|i: int|
                0 <= i < batch.len() && (#[trigger] batch[i])@ == n,
{
    if batch_fresh(spent, batch) {
        assert forall|i: int, j: int|
            0 <= i < batch.len() && 0 <= j < batch.len() && i != j implies (#[trigger] batch[i])@
            != (#[trigger] batch[j])@ by {
            if i < j {
                assert(batch[i]@ != batch[j]@);
            } else {
                assert(batch[j]@ != batch[i]@);
            }
        }
    }
}

/// After a batch was marked, exactly its nullifiers are spent beside those that
/// were spent before.
pub proof fn marking_spends_the_batch(spent: Set<Seq<u8>>, batch: Seq<[u8; 32]>, n: Seq<u8>)
    ensures
        spent.union(batch_set(batch)).contains(n) <==> spent.contains(n) || exists|i: int|
            0 <= i < batch.len() && (#[trigger] batch[i])@ == n,
{
}

} // verus!
