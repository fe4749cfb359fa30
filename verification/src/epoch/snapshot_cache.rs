//! `EpochSnapshotCache`: per-epoch snapshots in a local map, with a fetch hook
//! for those that are missing.
use crate::data::DataError;
use std::collections::HashMap;
use vstd::prelude::*;

verus! {

broadcast use vstd::std_specs::hash::group_hash_axioms;

/// Per-epoch values, with a fetch hook that is asked on a local miss.
#[verifier::reject_recursive_types(T)]
pub struct EpochSnapshotCache<T: Clone + Send, F: Fn(u64, &str) -> Result<T, DataError>> {
    /// Local tier: epoch to snapshot.
    local: HashMap<u64, T>,
    /// Fallback: fetch the snapshot of an epoch from the backing store.
    fetch: F,
    /// Partition id passed to the fetch hook.
    partition_id: String,
}

/// `after` and `r` are what asking for the snapshot of an epoch leads to.
pub open spec fn snapshot_given<T: Clone + Send, F: Fn(u64, &str) -> Result<T, DataError>>(
    before: Map<u64, T>,
    hook: F,
    partition: Seq<char>,
    epoch: u64,
    after: Map<u64, T>,
    r: Option<T>,
) -> bool {
    if before.contains_key(epoch) {
        after == before && r is Some && cloned(before[epoch], r->0)
    } else {
        exists|name: &str, answer: Result<T, DataError>|
            name@ == partition && #[trigger] call_ensures(hook, (epoch, name), answer)
                && match answer {
                Ok(snapshot) => r == Some(snapshot) && after.contains_key(epoch) && cloned(
                    snapshot,
                    after[epoch],
                ) && after == before.insert(epoch, after[epoch]),
                Err(_) => r is None && after == before,
            }
    }
}

/// What the backing store gave for an epoch is given again without asking it: the
/// second answer is a copy of the copy that was cached, and nothing changes.
pub proof fn fetched_snapshots_are_given_again<
    T: Clone + Send,
    F: Fn(u64, &str) -> Result<T, DataError>,
>(
    before: Map<u64, T>,
    hook: F,
    partition: Seq<char>,
    epoch: u64,
    between: Map<u64, T>,
    first: Option<T>,
    after: Map<u64, T>,
    second: Option<T>,
)
    requires
        snapshot_given(before, hook, partition, epoch, between, first),
        snapshot_given(between, hook, partition, epoch, after, second),
        first is Some,
    ensures
        second is Some,
        after == between,
        !before.contains_key(epoch) ==> cloned(first->0, between[epoch]) && cloned(
            between[epoch],
            second->0,
        ),
        before.contains_key(epoch) ==> between == before,
{
}

/// Nothing is cached for an epoch that the backing store has nothing for, and the
/// snapshots of other epochs stay whatever comes.
pub proof fn failed_fetches_cache_nothing<
    T: Clone + Send,
    F: Fn(u64, &str) -> Result<T, DataError>,
>(
    before: Map<u64, T>,
    hook: F,
    partition: Seq<char>,
    epoch: u64,
    after: Map<u64, T>,
    r: Option<T>,
    other: u64,
)
    requires
        snapshot_given(before, hook, partition, epoch, after, r),
        other != epoch,
    ensures
        !before.contains_key(epoch) && (forall|name: &str, answer: Result<T, DataError>|
            name@ == partition && #[trigger] call_ensures(hook, (epoch, name), answer) ==> answer
                is Err) ==> r is None && after == before,
        after.contains_key(other) == before.contains_key(other),
        before.contains_key(other) ==> after[other] == before[other],
{
}

impl<T: Clone + Send, F: Fn(u64, &str) -> Result<T, DataError>> EpochSnapshotCache<T, F> {
    /// The cached snapshots.
    pub closed spec fn cached(&self) -> Map<u64, T> {
        self.local@
    }

    /// The fetch hook.
    pub closed spec fn hook(&self) -> F {
        self.fetch
    }

    /// The partition that the hook is asked for.
    pub closed spec fn partition(&self) -> Seq<char> {
        self.partition_id@
    }

    /// Create a new cache with no cached snapshots.
    pub fn new(partition_id: String, fetch: F) -> (r: Self)
        ensures
            r.cached() == Map::<u64, T>::empty(),
            r.hook() == fetch,
            r.partition() == partition_id@,
    {
        EpochSnapshotCache { local: HashMap::new(), fetch, partition_id }
    }

    /// Get a snapshot for the given epoch: a copy of the cached one where there
    /// is one, without asking the hook; else what the hook gives, which is then
    /// cached. Nothing is cached where the hook fails.
    pub fn get(&mut self, epoch: u64) -> (r: Option<T>)
        requires
            forall|name: &str|
                name@ == old(self).partition() ==> call_requires(old(self).hook(), (epoch, name)),
        ensures
            final(self).hook() == old(self).hook(),
            final(self).partition() == old(self).partition(),
            old(self).cached().contains_key(epoch) ==> final(self).cached() == old(self).cached()
                && r is Some && cloned(old(self).cached()[epoch], r->0),
            !old(self).cached().contains_key(epoch) ==> exists|name: &str, answer: Result<T, DataError>|
                #![trigger call_ensures(old(self).hook(), (epoch, name), answer)]
                name@ == old(self).partition() && call_ensures(
                    old(self).hook(),
                    (epoch, name),
                    answer,
                ) && match answer {
                    Ok(snapshot) => r == Some(snapshot) && final(self).cached().contains_key(epoch)
                        && cloned(snapshot, final(self).cached()[epoch]) && final(self).cached()
                        == old(self).cached().insert(epoch, final(self).cached()[epoch]),
                    Err(_) => r is None && final(self).cached() == old(self).cached(),
                },
            snapshot_given(
                old(self).cached(),
                old(self).hook(),
                old(self).partition(),
                epoch,
                final(self).cached(),
                r,
            ),
    {
        match self.local.get(&epoch) {
            Some(snapshot) => {
                return Some(snapshot.clone());
            },
            None => {},
        }
        let answer = (self.fetch)(epoch, self.partition_id.as_str());
        match answer {
            Ok(snapshot) => {
                self.local.insert(epoch, snapshot.clone());
                Some(snapshot)
            },
            Err(_) => None,
        }
    }

    /// Put a snapshot directly into the cache.
    pub fn put(&mut self, epoch: u64, snapshot: T)
        ensures
            final(self).hook() == old(self).hook(),
            final(self).partition() == old(self).partition(),
            final(self).cached() == old(self).cached().insert(epoch, snapshot),
    {
        self.local.insert(epoch, snapshot);
    }

    /// Returns the number of cached epochs.
    pub fn cached_count(&self) -> (r: usize)
        ensures
            r == self.cached().dom().len(),
    {
        self.local.len()
    }

    /// Drop all cached snapshots.
    pub fn invalidate_all(&mut self)
        ensures
            final(self).hook() == old(self).hook(),
            final(self).partition() == old(self).partition(),
            final(self).cached() == Map::<u64, T>::empty(),
    {
        self.local.clear();
    }
}

} // verus!
