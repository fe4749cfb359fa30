//! `NodeRegistry`: the nodes known under each role, their admission under
//! stake and capacity, their liveness and the directory that they form.
pub mod fanout;
pub mod guarantees;
pub mod heartbeat;
pub mod registration;

use crate::bytes::copy_bytes;
use crate::config::Config;
use crate::keyed_store::KeyedStore;
use crate::node::{NodeRecord, NodeRegistryNode, NodeRegistryType};
use std::sync::Arc;
use vstd::prelude::*;

verus! {

/// How long a node may stay silent before it is evicted: 30 seconds.
pub const EVICTION_CUTOFF_MILLIS: u64 = 30_000;

/// How often the eviction loop runs: every second.
pub const EVICTION_INTERVAL_MILLIS: u64 = 1_000;

/// How long one send of a fan-out may take: 5 seconds.
pub const SEND_TIMEOUT_MILLIS: u64 = 5_000;

/// The records that a store holds.
pub open spec fn records(nodes: Map<Seq<u8>, NodeRegistryNode>) -> Map<Seq<u8>, NodeRecord> {
    nodes.map_values(|node: NodeRegistryNode| node@)
}

/// The nodes by role and key.
pub type Buckets = Map<NodeRegistryType, Map<Seq<u8>, NodeRecord>>;

/// The roles under which a key is registered, in role order.
pub open spec fn roles_of(buckets: Buckets, key: Seq<u8>) -> Seq<NodeRegistryType> {
    crate::node::all_roles().filter(|role: NodeRegistryType| buckets[role].contains_key(key))
}

/// A bucket after something was heard from a node at `now_millis`.
pub open spec fn heard(
    bucket: Map<Seq<u8>, NodeRecord>,
    key: Seq<u8>,
    now_millis: u64,
) -> Map<Seq<u8>, NodeRecord> {
    if bucket.contains_key(key) {
        bucket.insert(key, (NodeRecord { last_seen_millis: now_millis, ..bucket[key] }))
    } else {
        bucket
    }
}

/// Whether a node was silent for too long.
pub open spec fn expired(record: NodeRecord, now_millis: u64) -> bool {
    record.last_seen_millis + EVICTION_CUTOFF_MILLIS < now_millis
}

/// A bucket without the nodes that were silent for too long.
pub open spec fn live(bucket: Map<Seq<u8>, NodeRecord>, now_millis: u64) -> Map<
    Seq<u8>,
    NodeRecord,
> {
    bucket.remove_keys(
        Set::new(|key: Seq<u8>| bucket.contains_key(key) && expired(bucket[key], now_millis)),
    )
}

/// The roles of a key are exactly those under which it is registered, each once
/// and in role order.
pub proof fn roles_are_those_registered(buckets: Buckets, key: Seq<u8>, role: NodeRegistryType)
    ensures
        roles_of(buckets, key).contains(role) <==> buckets[role].contains_key(key),
        forall|i: int, j: int|
            0 <= i < j < roles_of(buckets, key).len() ==> (#[trigger] roles_of(
                buckets,
                key,
            )[i]).position() < (#[trigger] roles_of(buckets, key)[j]).position(),
{
    let named = |r: NodeRegistryType| buckets[r].contains_key(key);
    lemma_filter_holds(crate::node::all_roles(), named, role);
    crate::node::every_role_has_its_place(role, 0);
    assert(crate::node::all_roles().contains(role));
    lemma_filter_keeps_order(crate::node::all_roles(), named);
}

pub(crate) proof fn lemma_filter_holds(
    roles: Seq<NodeRegistryType>,
    named: spec_fn(NodeRegistryType) -> bool,
    role: NodeRegistryType,
)
    ensures
        roles.filter(named).contains(role) <==> roles.contains(role) && named(role),
    decreases roles.len(),
{
    reveal(Seq::filter);
    if roles.len() > 0 {
        let front = roles.drop_last();
        let last = roles.last();
        lemma_filter_holds(front, named, role);
        let kept = front.filter(named);
        assert(roles == front.push(last));
        assert(front.push(last).contains(role) <==> front.contains(role) || role == last) by {
            broadcast use vstd::seq_lib::group_seq_properties;

        }
        assert(kept.push(last).contains(role) <==> kept.contains(role) || role == last) by {
            broadcast use vstd::seq_lib::group_seq_properties;

        }
    }
}

proof fn lemma_filter_keeps_order(
    roles: Seq<NodeRegistryType>,
    named: spec_fn(NodeRegistryType) -> bool,
)
    requires
        forall|i: int, j: int|
            0 <= i < j < roles.len() ==> (#[trigger] roles[i]).position() < (
            #[trigger] roles[j]).position(),
    ensures
        forall|i: int, j: int|
            0 <= i < j < roles.filter(named).len() ==> (#[trigger] roles.filter(
                named,
            )[i]).position() < (#[trigger] roles.filter(named)[j]).position(),
    decreases roles.len(),
{
    reveal(Seq::filter);
    if roles.len() > 0 {
        let front = roles.drop_last();
        lemma_filter_keeps_order(front, named);
        let kept = front.filter(named);
        if named(roles.last()) {
            assert(roles.filter(named) == kept.push(roles.last()));
            assert forall|i: int| 0 <= i < kept.len() implies (#[trigger] kept[i]).position()
                < roles.last().position() by {
                assert(kept.contains(kept[i]));
                lemma_filter_holds(front, named, kept[i]);
                let k = choose|k: int| 0 <= k < front.len() && front[k] == kept[i];
                assert(roles[k] == kept[i]);
            }
        }
    }
}

/// Eviction goes by silence alone: a node stays, with all that is known of it,
/// exactly where it was heard of in the last thirty seconds.
pub proof fn only_silent_nodes_leave(
    bucket: Map<Seq<u8>, NodeRecord>,
    now_millis: u64,
    key: Seq<u8>,
)
    ensures
        live(bucket, now_millis).contains_key(key) <==> bucket.contains_key(key) && now_millis
            - bucket[key].last_seen_millis <= 30_000,
        live(bucket, now_millis).contains_key(key) ==> live(bucket, now_millis)[key]
            == bucket[key],
{
}

/// Hearing of a node sets its time and nothing else: no other node changes, none
/// appears and none goes.
pub proof fn hearing_sets_the_time(
    bucket: Map<Seq<u8>, NodeRecord>,
    heard_key: Seq<u8>,
    now_millis: u64,
    key: Seq<u8>,
)
    ensures
        heard(bucket, heard_key, now_millis).contains_key(key) <==> bucket.contains_key(key),
        bucket.contains_key(key) && key != heard_key ==> heard(
            bucket,
            heard_key,
            now_millis,
        )[key] == bucket[key],
        bucket.contains_key(heard_key) ==> {
            let after = heard(bucket, heard_key, now_millis)[heard_key];
            &&& after.last_seen_millis == now_millis
            &&& after.rhash == bucket[heard_key].rhash
            &&& after.directory_signature == bucket[heard_key].directory_signature
            &&& after.directory_requested_type == bucket[heard_key].directory_requested_type
            &&& after.directory_node_types == bucket[heard_key].directory_node_types
        },
{
}

/// A node that was heard of outlives the next thirty seconds, and no more.
pub proof fn heard_nodes_live_on(
    bucket: Map<Seq<u8>, NodeRecord>,
    key: Seq<u8>,
    heard_millis: u64,
    now_millis: u64,
)
    requires
        bucket.contains_key(key),
    ensures
        live(heard(bucket, key, heard_millis), now_millis).contains_key(key) <==> now_millis
            <= heard_millis + 30_000,
{
}

/// The nodes of a network by role. Admission goes by `stake_check`, which
/// says whether a key holds the stake that a role asks for.
pub struct NodeRegistry<S: Fn(&[u8], &NodeRegistryType) -> bool> {
    committers: KeyedStore<NodeRegistryNode>,
    sentinels: KeyedStore<NodeRegistryNode>,
    executors: KeyedStore<NodeRegistryNode>,
    finalizers: KeyedStore<NodeRegistryNode>,
    archivers: KeyedStore<NodeRegistryNode>,
    config: Arc<Config>,
    stake_check: S,
    /// Failed fan-out deliveries by address and role
    delivery_failures: KeyedStore<u64>,
}

impl<S: Fn(&[u8], &NodeRegistryType) -> bool> View for NodeRegistry<S> {
    type V = Buckets;

    closed spec fn view(&self) -> Buckets {
        Map::new(|role: NodeRegistryType| true, |role: NodeRegistryType| records(self.store(role)@))
    }
}

impl<S: Fn(&[u8], &NodeRegistryType) -> bool> NodeRegistry<S> {
    spec fn store(&self, role: NodeRegistryType) -> KeyedStore<NodeRegistryNode> {
        match role {
            NodeRegistryType::Committer => self.committers,
            NodeRegistryType::Sentinel => self.sentinels,
            NodeRegistryType::Executor => self.executors,
            NodeRegistryType::Finalizer => self.finalizers,
            NodeRegistryType::Archiver => self.archivers,
        }
    }

    /// The indexes are consistent.
    pub closed spec fn wf(&self) -> bool {
        &&& self.committers.wf()
        &&& self.sentinels.wf()
        &&& self.executors.wf()
        &&& self.finalizers.wf()
        &&& self.archivers.wf()
        &&& self.delivery_failures.wf()
        &&& self.config.wf()
    }

    /// The configuration of this node.
    pub closed spec fn configuration(&self) -> Config {
        *self.config
    }

    /// The stake check.
    pub closed spec fn gate(&self) -> S {
        self.stake_check
    }

    /// The failed deliveries by address and role.
    pub closed spec fn failures(&self) -> Map<Seq<u8>, u64> {
        self.delivery_failures@
    }

    /// Everything but the nodes stayed as it was.
    pub open spec fn same_settings(&self, other: &Self) -> bool {
        &&& self.configuration() == other.configuration()
        &&& self.gate() == other.gate()
        &&& self.failures() == other.failures()
    }

    pub fn init(config: Arc<Config>, stake_check: S) -> (r: Self)
        requires
            config.wf(),
        ensures
            r.wf(),
            forall|role: NodeRegistryType| #[trigger]
                r@.contains_key(role) && r@[role] == Map::<Seq<u8>, NodeRecord>::empty(),
            r.configuration() == *config,
            r.gate() == stake_check,
            r.failures() == Map::<Seq<u8>, u64>::empty(),
            r.total_failures() == 0,
    {
        proof {
            fanout::nothing_failed_at_first();
        }
        let r = NodeRegistry {
            committers: KeyedStore::new(),
            sentinels: KeyedStore::new(),
            executors: KeyedStore::new(),
            finalizers: KeyedStore::new(),
            archivers: KeyedStore::new(),
            config,
            stake_check,
            delivery_failures: KeyedStore::new(),
        };
        assert forall|role: NodeRegistryType| #[trigger]
            r@.contains_key(role) && r@[role] == Map::<Seq<u8>, NodeRecord>::empty() by {
            assert(r@[role] =~= Map::<Seq<u8>, NodeRecord>::empty());
        }
        r
    }

    pub fn get_config(&self) -> (r: &Arc<Config>)
        ensures
            **r == self.configuration(),
    {
        &self.config
    }

    /// The nodes of a role.
    pub fn get_nodes(&self, node_type: &NodeRegistryType) -> (r: &KeyedStore<NodeRegistryNode>)
        requires
            self.wf(),
        ensures
            r.wf(),
            records(r@) == self@[*node_type],
    {
        match node_type {
            NodeRegistryType::Committer => &self.committers,
            NodeRegistryType::Sentinel => &self.sentinels,
            NodeRegistryType::Executor => &self.executors,
            NodeRegistryType::Finalizer => &self.finalizers,
            NodeRegistryType::Archiver => &self.archivers,
        }
    }

    /// Mutable access to the nodes of a role.
    fn nodes_mut(&mut self, node_type: NodeRegistryType) -> (r: &mut KeyedStore<NodeRegistryNode>)
        requires
            old(self).wf(),
        ensures
            r.wf(),
            records(r@) == old(self)@[node_type],
            final(r).wf() ==> final(self).wf(),
            final(self)@ == old(self)@.insert(node_type, records(final(r)@)),
            final(self).same_settings(old(self)),
    {
        let r = match node_type {
            NodeRegistryType::Committer => &mut self.committers,
            NodeRegistryType::Sentinel => &mut self.sentinels,
            NodeRegistryType::Executor => &mut self.executors,
            NodeRegistryType::Finalizer => &mut self.finalizers,
            NodeRegistryType::Archiver => &mut self.archivers,
        };
        r
    }

    /// Replace what is known of a registered node, or add a node.
    fn put_node(&mut self, node_type: NodeRegistryType, key: Vec<u8>, node: NodeRegistryNode)
        requires
            old(self).wf(),
        ensures
            final(self).wf(),
            final(self)@ == old(self)@.insert(
                node_type,
                old(self)@[node_type].insert(key@, node@),
            ),
            final(self).same_settings(old(self)),
    {
        let ghost before = self@[node_type];
        let ghost k = key@;
        let nodes = self.nodes_mut(node_type);
        let _ = nodes.insert(key, node);
        assert(records(nodes@) =~= before.insert(k, node@));
    }

    /// Note that something was heard from a node.
    pub fn refresh_last_seen(&mut self, key: &[u8], node_type: NodeRegistryType, now_millis: u64)
        requires
            old(self).wf(),
        ensures
            final(self).wf(),
            final(self)@ == old(self)@.insert(
                node_type,
                heard(old(self)@[node_type], key@, now_millis),
            ),
            final(self).same_settings(old(self)),
    {
        let ghost before = self@[node_type];
        let nodes = self.nodes_mut(node_type);
        let ghost stored = nodes@;
        assert(records(stored) == before);
        match nodes.get_mut(key) {
            Some(node) => {
                node.last_seen_millis = now_millis;
            },
            None => {},
        }
        assert(records(nodes@) =~= heard(before, key@, now_millis));
    }

    pub fn node_is_already_registered(&self, key: &[u8], node_type: &NodeRegistryType) -> (r: bool)
        requires
            self.wf(),
        ensures
            r == self@[*node_type].contains_key(key@),
    {
        let nodes = self.get_nodes(node_type);
        assert(records(nodes@).contains_key(key@) == nodes@.contains_key(key@));
        nodes.contains_key(key)
    }

    /// The number of nodes of a role.
    pub fn node_count(&self, node_type: &NodeRegistryType) -> (r: usize)
        requires
            self.wf(),
        ensures
            r == self@[*node_type].dom().len(),
            self@[*node_type].dom().finite(),
    {
        let nodes = self.get_nodes(node_type);
        assert(records(nodes@).dom() =~= nodes@.dom());
        nodes.len()
    }

    /// Remove the nodes that were silent for too long, under every role.
    pub fn evict_expired(&mut self, now_millis: u64)
        requires
            old(self).wf(),
        ensures
            final(self).wf(),
            forall|role: NodeRegistryType| #[trigger]
                final(self)@[role] == live(old(self)@[role], now_millis),
            final(self).same_settings(old(self)),
    {
        let roles = NodeRegistryType::all();
        let ghost all = roles@;
        let mut i: usize = 0;
        while i < roles.len()
            invariant
                self.wf(),
                self.same_settings(old(self)),
                roles@ == all,
                all == crate::node::all_roles(),
                i <= all.len(),
                forall|j: int|
                    0 <= j < i ==> self@[#[trigger] all[j]] == live(
                        old(self)@[all[j]],
                        now_millis,
                    ),
                forall|j: int|
                    i <= j < all.len() ==> self@[#[trigger] all[j]] == old(self)@[all[j]],
            decreases all.len() - i,
        {
            let nodes = self.nodes_mut(roles[i]);
            evict_bucket(nodes, now_millis);
            i += 1;
        }
        assert forall|role: NodeRegistryType| #[trigger]
            self@[role] == live(old(self)@[role], now_millis) by {
            assert(all[role.position() as int] == role);
        }
    }
}

/// Remove the nodes of one bucket that were silent for too long.
fn evict_bucket(nodes: &mut KeyedStore<NodeRegistryNode>, now_millis: u64)
    requires
        old(nodes).wf(),
    ensures
        final(nodes).wf(),
        records(final(nodes)@) == live(records(old(nodes)@), now_millis),
{
    let ghost start = nodes@;
    let ghost keys = nodes.key_list();
    let mut stale: Vec<Vec<u8>> = Vec::new();
    let mut i: usize = 0;
    proof {
        nodes.lemma_key_list();
    }
    while i < nodes.len()
        invariant
            nodes.wf(),
            nodes@ == start,
            keys == nodes.key_list(),
            i <= keys.len(),
            forall|j: int| 0 <= j < keys.len() ==> start.contains_key(#[trigger] keys[j]),
            forall|j: int|
                0 <= j < stale@.len() ==> start.contains_key((#[trigger] stale@[j])@) && expired(
                    start[stale@[j]@]@,
                    now_millis,
                ),
            forall|j: int|
                0 <= j < i && expired(start[#[trigger] keys[j]]@, now_millis) ==> exists|k: int|
                    0 <= k < stale@.len() && (#[trigger] stale@[k])@ == keys[j],
        decreases keys.len() - i,
    {
        let ghost old_stale = stale@;
        if now_millis > EVICTION_CUTOFF_MILLIS && nodes.value_at(i).last_seen_millis < now_millis
            - EVICTION_CUTOFF_MILLIS {
            stale.push(copy_bytes(nodes.key_at(i)));
            assert(stale@[old_stale.len() as int]@ == keys[i as int]);
        }
        assert forall|j: int|
            0 <= j < i + 1 && expired(start[#[trigger] keys[j]]@, now_millis) implies exists|k: int|
            0 <= k < stale@.len() && (#[trigger] stale@[k])@ == keys[j] by {
            if j < i {
                let k = choose|k: int|
                    0 <= k < old_stale.len() && (#[trigger] old_stale[k])@ == keys[j];
                assert(stale@[k] == old_stale[k]);
            }
        }
        i += 1;
    }
    assert forall|key: Seq<u8>| start.contains_key(key) && expired(
        start[key]@,
        now_millis,
    ) implies exists|k: int| 0 <= k < stale@.len() && (#[trigger] stale@[k])@ == key by {
        assert(keys.contains(key));
        let j = choose|j: int| 0 <= j < keys.len() && keys[j] == key;
        assert(expired(start[keys[j]]@, now_millis));
    }
    let mut n: usize = 0;
    while n < stale.len()
        invariant
            nodes.wf(),
            n <= stale@.len(),
            forall|key: Seq<u8>| #[trigger]
                nodes@.contains_key(key) <==> start.contains_key(key) && !(exists|k: int|
                    0 <= k < n && (#[trigger] stale@[k])@ == key),
            forall|key: Seq<u8>| #[trigger] nodes@.contains_key(key) ==> nodes@[key] == start[key],
        decreases stale@.len() - n,
    {
        let ghost before = nodes@;
        let _ = nodes.remove(&stale[n]);
        assert forall|key: Seq<u8>| #[trigger]
            nodes@.contains_key(key) <==> start.contains_key(key) && !(exists|k: int|
                0 <= k < n + 1 && (#[trigger] stale@[k])@ == key) by {
            if key == stale@[n as int]@ {
                assert(stale@[n as int]@ == key);
            } else if before.contains_key(key) {
                assert(nodes@.contains_key(key));
            }
        }
        n += 1;
    }
    proof {
        let goal = live(records(start), now_millis);
        assert forall|key: Seq<u8>| #[trigger]
            records(nodes@).contains_key(key) == goal.contains_key(key) by {
            if start.contains_key(key) && expired(start[key]@, now_millis) {
                let k = choose|k: int| 0 <= k < stale@.len() && (#[trigger] stale@[k])@ == key;
                assert(!nodes@.contains_key(key));
            } else if start.contains_key(key) {
                assert(nodes@.contains_key(key));
            }
        }
        assert(records(nodes@) =~= goal);
    }
}

} // verus!
