//! `StakeIndex`: the current epoch's stakes in memory, so that a
//! registration never waits for the data service.
use crate::bytes::copy_bytes;
use crate::config::{meets_minimum_stake, Config};
use crate::data::{DataError, DataProvider};
use crate::epoch::StakeSet;
use crate::keyed_store::KeyedStore;
use crate::node::NodeRegistryType;
use crate::text::{decimal_string, wrap};
use std::sync::Arc;
use vstd::prelude::*;
use vstd::string::StringExecFns;

verus! {

/// How often the index is refreshed unless told otherwise, in milliseconds.
pub const DEFAULT_REFRESH_MS: u64 = 5_000;

/// The stakes of one epoch, by key. A key that is missing has no stake, so a
/// cold index refuses everybody.
pub struct StakeIndex<D: DataProvider> {
    inner: KeyedStore<u64>,
    data_provider: Arc<D>,
    /// Partition that the snapshots are stored under
    partition: String,
    /// The epoch whose snapshot is wanted
    epoch: u64,
    refresh_ms: u64,
}

/// `text` reports that the snapshot of an epoch could not be read.
pub open spec fn reports(text: Seq<char>, epoch: u64, partition: Seq<char>, e: DataError) -> bool {
    exists|shown: Seq<char>| #[trigger]
        e.shows(shown) && text == "get_stake_snapshot("@ + crate::text::decimal(epoch as nat)
            + ", "@ + partition + "): "@ + shown
}

/// Whether a key may register for a role: its stake reaches the minimum of the
/// main environment and that of the role.
pub open spec fn may_register(
    stakes: Map<Seq<u8>, u64>,
    config: Config,
    key: Seq<u8>,
    role: NodeRegistryType,
) -> bool {
    let stake = crate::epoch::stake_sets::stake_of(stakes, key);
    stake >= config.global_min_stake() && stake >= config.required_stake(role)
}

/// A key without stake may register for no role that asks for any.
pub proof fn unknown_keys_are_refused(
    stakes: Map<Seq<u8>, u64>,
    config: Config,
    key: Seq<u8>,
    role: NodeRegistryType,
)
    requires
        !stakes.contains_key(key),
        config.global_min_stake() > 0 || config.required_stake(role) > 0,
    ensures
        !may_register(stakes, config, key, role),
{
}

/// A key may register exactly where its stake reaches both minimums: that of the
/// main environment and that of the role. A key that is missing has no stake.
pub proof fn both_minimums_must_be_met(
    stakes: Map<Seq<u8>, u64>,
    config: Config,
    key: Seq<u8>,
    role: NodeRegistryType,
)
    ensures
        stakes.contains_key(key) ==> (may_register(stakes, config, key, role) <==> stakes[key]
            >= config.global_min_stake() && stakes[key] >= config.required_stake(role)),
        !stakes.contains_key(key) ==> (may_register(stakes, config, key, role)
            <==> config.global_min_stake() == 0 && config.required_stake(role) == 0),
{
}

/// More stake never takes a right away, and the stakes of others do not matter.
pub proof fn more_stake_never_hurts(
    stakes: Map<Seq<u8>, u64>,
    more: Map<Seq<u8>, u64>,
    config: Config,
    key: Seq<u8>,
    role: NodeRegistryType,
)
    requires
        stakes.contains_key(key),
        more.contains_key(key),
        stakes[key] <= more[key],
        may_register(stakes, config, key, role),
    ensures
        may_register(more, config, key, role),
{
}

/// The stakes of a snapshot in an index of their own.
fn build_index(snapshot: &StakeSet) -> (r: KeyedStore<u64>)
    ensures
        r.wf(),
        r@ == snapshot.stakers@,
{
    let ghost entries = snapshot.stakers.listing();
    let mut index: KeyedStore<u64> = KeyedStore::new();
    let mut i: usize = 0;
    proof {
        use_type_invariant(&snapshot.stakers);
        snapshot.stakers.lemma_listing();
    }
    while i < snapshot.stakers.len()
        invariant
            index.wf(),
            i <= entries.len(),
            entries == snapshot.stakers.listing(),
            forall|j: int|
                0 <= j < entries.len() ==> snapshot.stakers@.contains_key(#[trigger] entries[j].0)
                    && snapshot.stakers@[entries[j].0] == entries[j].1,
            forall|j: int| 0 <= j < i ==> index@.contains_key(#[trigger] entries[j].0),
            forall|key: Seq<u8>| #[trigger]
                index@.contains_key(key) ==> snapshot.stakers@.contains_key(key) && index@[key]
                    == snapshot.stakers@[key],
        decreases entries.len() - i,
    {
        assert(snapshot.stakers@.contains_key(entries[i as int].0));
        let _ = index.insert(
            copy_bytes(snapshot.stakers.key_at(i)),
            *snapshot.stakers.value_at(i),
        );
        i += 1;
    }
    proof {
        assert forall|key: Seq<u8>| #[trigger]
            snapshot.stakers@.contains_key(key) implies index@.contains_key(key) by {
            assert(crate::sorted_map::lists_key(entries, key));
            let j = choose|j: int| 0 <= j < entries.len() && (#[trigger] entries[j]).0 == key;
            assert(index@.contains_key(entries[j].0));
        }
        assert(index@ =~= snapshot.stakers@);
    }
    index
}

impl<D: DataProvider> StakeIndex<D> {
    pub closed spec fn wf(&self) -> bool {
        self.inner.wf()
    }

    /// The stakes that the index holds.
    pub closed spec fn stakes(&self) -> Map<Seq<u8>, u64> {
        self.inner@
    }

    /// Where the snapshots come from.
    pub closed spec fn provider(&self) -> D {
        *self.data_provider
    }

    /// The partition of the snapshots.
    pub closed spec fn partition_name(&self) -> Seq<char> {
        self.partition@
    }

    /// The epoch whose snapshot is wanted.
    pub closed spec fn current_epoch(&self) -> u64 {
        self.epoch
    }

    /// The refresh interval in milliseconds.
    pub closed spec fn interval(&self) -> u64 {
        self.refresh_ms
    }

    /// Everything but the stakes and the epoch stayed as it was.
    pub open spec fn same_source(&self, other: &Self) -> bool {
        &&& self.provider() == other.provider()
        &&& self.partition_name() == other.partition_name()
        &&& self.interval() == other.interval()
    }

    /// An empty index for an epoch.
    pub fn new(data_provider: D, partition: String, epoch: u64, refresh_ms: Option<u64>) -> (r:
        Self)
        ensures
            r.wf(),
            r.stakes() == Map::<Seq<u8>, u64>::empty(),
            r.provider() == data_provider,
            r.partition_name() == partition@,
            r.current_epoch() == epoch,
            r.interval() == (match refresh_ms {
                Some(ms) => ms,
                None => DEFAULT_REFRESH_MS,
            }),
    {
        StakeIndex {
            inner: KeyedStore::new(),
            data_provider: Arc::new(data_provider),
            partition,
            epoch,
            refresh_ms: match refresh_ms {
                Some(ms) => ms,
                None => DEFAULT_REFRESH_MS,
            },
        }
    }

    /// The refresh interval in milliseconds.
    pub fn refresh_interval(&self) -> (r: u64)
        ensures
            r == self.interval(),
    {
        self.refresh_ms
    }

    /// Whether the index has a stake for a key.
    pub fn contains_key(&self, key: &[u8]) -> (r: bool)
        ensures
            r == self.stakes().contains_key(key@),
    {
        self.inner.contains_key(key)
    }

    /// What to ask whom for: the data service, the epoch and the partition of the
    /// snapshot that is wanted. Whoever shares the index between threads asks
    /// with these, so that no check waits for the answer.
    pub fn wanted_snapshot(&self) -> (r: (Arc<D>, u64, String))
        ensures
            *r.0 == self.provider(),
            r.1 == self.current_epoch(),
            r.2@ == self.partition_name(),
    {
        (Arc::clone(&self.data_provider), self.epoch, self.partition.clone())
    }

    /// Take in what the data service answered for an epoch: a snapshot replaces
    /// the whole index, an error leaves it as it is.
    pub fn apply_snapshot(&mut self, epoch: u64, answer: Result<StakeSet, DataError>) -> (r: Result<
        (),
        String,
    >)
        requires
            old(self).wf(),
        ensures
            final(self).wf(),
            final(self).same_source(old(self)),
            final(self).current_epoch() == old(self).current_epoch(),
            match answer {
                Ok(snapshot) => r is Ok && final(self).stakes() == snapshot.stakers@,
                Err(e) => (r matches Err(text) && reports(
                    text@,
                    epoch,
                    old(self).partition_name(),
                    e,
                )) && final(self).stakes() == old(self).stakes(),
            },
    {
        match answer {
            Ok(snapshot) => {
                self.inner = build_index(&snapshot);
                Ok(())
            },
            Err(e) => {
                let shown = e.to_string();
                let mut text = wrap("get_stake_snapshot(", &decimal_string(epoch), ", ");
                text.append(&self.partition);
                text.append("): ");
                text.append(&shown);
                proof {
                    assert(e.shows(shown@));
                }
                Err(text)
            },
        }
    }

    /// Read the snapshot of the current epoch and replace the index by it.
    pub fn refresh(&mut self) -> (r: Result<(), String>)
        requires
            old(self).wf(),
        ensures
            final(self).wf(),
            final(self).same_source(old(self)),
            final(self).current_epoch() == old(self).current_epoch(),
            snapshot_taken(
                old(self).provider(),
                old(self).current_epoch(),
                old(self).partition_name(),
                old(self).stakes(),
                final(self).stakes(),
                r,
            ),
    {
        let answer = self.data_provider.get_stake_snapshot(self.epoch, self.partition.as_str());
        self.apply_snapshot(self.epoch, answer)
    }

    /// Load the snapshot of the current epoch, before registrations start; where
    /// that fails, the index stays as it is.
    pub fn warm(&mut self)
        requires
            old(self).wf(),
        ensures
            final(self).wf(),
            final(self).same_source(old(self)),
            final(self).current_epoch() == old(self).current_epoch(),
            exists|r: Result<(), String>| #[trigger]
                snapshot_taken(
                    old(self).provider(),
                    old(self).current_epoch(),
                    old(self).partition_name(),
                    old(self).stakes(),
                    final(self).stakes(),
                    r,
                ),
    {
        let _ = self.refresh();
    }

    /// Turn to another epoch without reading its snapshot: the old stakes stay.
    pub fn turn_to(&mut self, epoch: u64)
        requires
            old(self).wf(),
        ensures
            final(self).wf(),
            final(self).same_source(old(self)),
            final(self).current_epoch() == epoch,
            final(self).stakes() == old(self).stakes(),
    {
        self.epoch = epoch;
    }

    /// Turn to another epoch and read its snapshot; where that fails, the old
    /// stakes stay.
    pub fn set_epoch(&mut self, epoch: u64)
        requires
            old(self).wf(),
        ensures
            final(self).wf(),
            final(self).same_source(old(self)),
            final(self).current_epoch() == epoch,
            exists|r: Result<(), String>| #[trigger]
                snapshot_taken(
                    old(self).provider(),
                    epoch,
                    old(self).partition_name(),
                    old(self).stakes(),
                    final(self).stakes(),
                    r,
                ),
    {
        self.turn_to(epoch);
        let r = self.refresh();
        assert(snapshot_taken(
            old(self).provider(),
            epoch,
            old(self).partition_name(),
            old(self).stakes(),
            self.stakes(),
            r,
        ));
    }

    /// The stake check of registrations: it only reads the index and the configuration.
    pub fn make_check<'a>(&'a self, config: Arc<Config>) -> (r: StakeGate<'a, D>)
        ensures
            r.index == self,
            r.config == config,
    {
        StakeGate { index: self, config }
    }
}

/// `after` and `r` are what reading the snapshot of an epoch leads to.
pub open spec fn snapshot_taken<D: DataProvider>(
    provider: D,
    epoch: u64,
    partition: Seq<char>,
    before: Map<Seq<u8>, u64>,
    after: Map<Seq<u8>, u64>,
    r: Result<(), String>,
) -> bool {
    exists|name: &str, answer: Result<StakeSet, DataError>|
        name@ == partition && #[trigger] call_ensures(
            D::get_stake_snapshot,
            (&provider, epoch, name),
            answer,
        ) && match answer {
            Ok(snapshot) => r is Ok && after == snapshot.stakers@,
            Err(e) => (r matches Err(text) && reports(text@, epoch, partition, e)) && after
                == before,
        }
}

/// Where the data service fails, the stakes stay as they were, and the failure is
/// reported.
pub proof fn failed_reads_keep_the_stakes<D: DataProvider>(
    provider: D,
    epoch: u64,
    partition: Seq<char>,
    before: Map<Seq<u8>, u64>,
    after: Map<Seq<u8>, u64>,
    r: Result<(), String>,
)
    requires
        snapshot_taken(provider, epoch, partition, before, after, r),
        forall|name: &str, answer: Result<StakeSet, DataError>|
            name@ == partition && #[trigger] call_ensures(
                D::get_stake_snapshot,
                (&provider, epoch, name),
                answer,
            ) ==> answer is Err,
    ensures
        after == before,
        r is Err,
{
}

/// Where the data service answers with a snapshot, its stakes replace all that
/// were held before.
pub proof fn snapshots_replace_the_stakes<D: DataProvider>(
    provider: D,
    epoch: u64,
    partition: Seq<char>,
    before: Map<Seq<u8>, u64>,
    after: Map<Seq<u8>, u64>,
    r: Result<(), String>,
    stakes: Map<Seq<u8>, u64>,
)
    requires
        snapshot_taken(provider, epoch, partition, before, after, r),
        forall|name: &str, answer: Result<StakeSet, DataError>|
            name@ == partition && #[trigger] call_ensures(
                D::get_stake_snapshot,
                (&provider, epoch, name),
                answer,
            ) ==> (answer matches Ok(snapshot) && snapshot.stakers@ == stakes),
    ensures
        after == stakes,
        r is Ok,
{
}

/// The stake check of registrations over an index.
pub struct StakeGate<'a, D: DataProvider> {
    pub index: &'a StakeIndex<D>,
    pub config: Arc<Config>,
}

impl<'a, D: DataProvider> StakeGate<'a, D> {
    /// Whether a key may register for a role.
    pub fn check(&self, key: &[u8], node_type: &NodeRegistryType) -> (r: bool)
        requires
            self.index.wf(),
            self.config.wf(),
        ensures
            r == may_register(self.index.stakes(), *self.config, key@, *node_type),
    {
        let global_min = self.config.get_global_min_stake();
        let type_min = self.config.get_required_type_stake(node_type);
        let stake = match self.index.inner.get(key) {
            Some(stake) => *stake,
            None => 0,
        };
        meets_minimum_stake(stake, global_min, type_min)
    }
}

} // verus!
