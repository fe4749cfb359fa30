//! Registration and directory sync: admission under stake and capacity, the
//! acknowledgement round trip, and what a directory response may change.
use super::NodeRegistry;
use crate::bytes::copy_bytes;
use crate::crypto::check_hybrid_signature;
use crate::encoding::{pack_directory, PlainEntry};
use crate::errors::PneumaticError;
use crate::node::{
    copy_roles, role_in, NodeRegistryEntry, NodeRegistryNode, NodeRegistryResponse,
    NodeRegistryType, NodeRequest, NodeRequestType,
};
use crate::rns::identity::NodeIdentity;
use vstd::prelude::*;

verus! {

/// The roles that a registration can place a node under, the preferred first.
pub open spec fn priority_roles() -> Seq<NodeRegistryType> {
    seq![
        NodeRegistryType::Finalizer,
        NodeRegistryType::Executor,
        NodeRegistryType::Sentinel,
        NodeRegistryType::Committer,
    ]
}

/// What a registry holds and how much it takes: the nodes by role, and the
/// most nodes of each role.
#[verifier::ext_equal]
pub struct Directory {
    pub buckets: super::Buckets,
    pub limits: Map<NodeRegistryType, nat>,
}

impl Directory {
    /// There is no room for another node of a role.
    pub open spec fn full(self, role: NodeRegistryType) -> bool {
        self.buckets[role].dom().len() >= self.limits[role]
    }

    /// A role that a registration can place a node under: it was asked for, and
    /// there is room.
    pub open spec fn qualifies(
        self,
        requester_types: Seq<NodeRegistryType>,
        role: NodeRegistryType,
    ) -> bool {
        &&& role != NodeRegistryType::Archiver
        &&& requester_types.contains(role)
        &&& !self.full(role)
    }

    /// The roles that a registration can place a node under, the preferred first.
    pub open spec fn fitting_roles(self, requester_types: Seq<NodeRegistryType>) -> Seq<
        NodeRegistryType,
    > {
        priority_roles().filter(|role: NodeRegistryType| self.qualifies(requester_types, role))
    }

    /// A registration places the node under a role that it did not hold.
    pub open spec fn admits(
        self,
        request: NodeRequest,
        answers: GateAnswers,
        role: NodeRegistryType,
    ) -> bool {
        &&& self.qualifies(request.requester_types@, role)
        &&& !self.buckets[role].contains_key(request.requester_key@)
        &&& answers.answer(role)
    }

    /// The node holds a role after its registration.
    pub open spec fn holds_after(
        self,
        request: NodeRequest,
        answers: GateAnswers,
        role: NodeRegistryType,
    ) -> bool {
        self.buckets[role].contains_key(request.requester_key@) || self.admits(
            request,
            answers,
            role,
        )
    }

    /// The nodes after a registration: the node is heard of under each role that
    /// it held, and added under each role that admits it.
    pub open spec fn registered(
        self,
        request: NodeRequest,
        answers: GateAnswers,
        now_millis: u64,
    ) -> super::Buckets {
        Map::new(
            |role: NodeRegistryType| true,
            |role: NodeRegistryType| self.registered_under(request, answers, now_millis, role),
        )
    }

    /// The nodes of one role after a registration.
    pub open spec fn registered_under(
        self,
        request: NodeRequest,
        answers: GateAnswers,
        now_millis: u64,
        role: NodeRegistryType,
    ) -> Map<Seq<u8>, crate::node::NodeRecord> {
        if self.admits(request, answers, role) {
            self.buckets[role].insert(request.requester_key@, bound_record(request, now_millis))
        } else {
            super::heard(self.buckets[role], request.requester_key@, now_millis)
        }
    }

    /// The preferred role that the node holds after its registration; the one
    /// that it asked for where it holds none of those.
    pub open spec fn preferred(self, request: NodeRequest, answers: GateAnswers) -> NodeRegistryType {
        if self.holds_after(request, answers, NodeRegistryType::Finalizer) {
            NodeRegistryType::Finalizer
        } else if self.holds_after(request, answers, NodeRegistryType::Executor) {
            NodeRegistryType::Executor
        } else if self.holds_after(request, answers, NodeRegistryType::Sentinel) {
            NodeRegistryType::Sentinel
        } else if self.holds_after(request, answers, NodeRegistryType::Committer) {
            NodeRegistryType::Committer
        } else {
            request.requested_type
        }
    }

    /// `reply` answers a registration: accepted where the node holds any role
    /// afterwards, with the preferred one of them; else refused, for want of
    /// stake where a role had room for it.
    pub open spec fn answered(
        self,
        request: NodeRequest,
        answers: GateAnswers,
        reply: RegisterReply,
    ) -> bool {
        &&& reply.peer_rhash == request.requester_rhash
        &&& reply.accepted <==> exists|role: NodeRegistryType| #[trigger]
            self.holds_after(request, answers, role)
        &&& reply.accepted ==> reply.reason@ == Seq::<char>::empty()
        &&& reply.accepted ==> reply.node_type == self.preferred(request, answers)
        &&& !reply.accepted ==> reply.node_type == request.requested_type
        &&& !reply.accepted ==> reply.reason@ == (if exists|role: NodeRegistryType| #[trigger]
            self.qualifies(request.requester_types@, role) {
            "insufficient stake"@
        } else {
            "no registry type available"@
        })
    }
}

/// A key may send an action that the given roles govern.
pub open spec fn may_send(
    buckets: super::Buckets,
    key: Seq<u8>,
    allowed_roles: Seq<NodeRegistryType>,
) -> bool {
    exists|i: int|
        0 <= i < allowed_roles.len() && buckets[#[trigger] allowed_roles[i]].contains_key(key)
}

/// What is known of a node that registered directly.
pub open spec fn bound_record(request: NodeRequest, now_millis: u64) -> crate::node::NodeRecord {
    crate::node::NodeRecord {
        rhash: request.requester_rhash@,
        last_seen_millis: now_millis,
        directory_signature: request.binding_signature@,
        directory_requested_type: request.requested_type,
        directory_node_types: request.requester_types@,
    }
}

/// The binding of a request holds.
pub open spec fn request_bound(request: NodeRequest) -> bool {
    crate::rns::identity::binding_ok(
        request.requester_key@,
        request.requester_rhash@,
        request.requested_type,
        request.requester_types@,
        request.binding_signature@,
    )
}

pub fn check_request(request: &NodeRequest) -> (r: bool)
    ensures
        r == request_bound(*request),
{
    NodeIdentity::verify_binding(
        &request.requester_key,
        &request.requester_rhash,
        &request.requested_type,
        &request.requester_types,
        &request.binding_signature,
    )
}

/// What the stake check says of a node for each role.
#[derive(Debug, Clone, Copy, PartialEq, Eq, Structural)]
pub struct GateAnswers {
    pub finalizer: bool,
    pub executor: bool,
    pub sentinel: bool,
    pub committer: bool,
}

impl GateAnswers {
    /// What the stake check says for a role.
    pub open spec fn answer(self, role: NodeRegistryType) -> bool {
        match role {
            NodeRegistryType::Finalizer => self.finalizer,
            NodeRegistryType::Executor => self.executor,
            NodeRegistryType::Sentinel => self.sentinel,
            NodeRegistryType::Committer => self.committer,
            NodeRegistryType::Archiver => false,
        }
    }

    fn get(&self, role: NodeRegistryType) -> (r: bool)
        ensures
            r == self.answer(role),
    {
        match role {
            NodeRegistryType::Finalizer => self.finalizer,
            NodeRegistryType::Executor => self.executor,
            NodeRegistryType::Sentinel => self.sentinel,
            NodeRegistryType::Committer => self.committer,
            NodeRegistryType::Archiver => false,
        }
    }
}

/// The answer to a registration.
#[derive(Debug)]
pub struct RegisterReply {
    /// Where the answer goes
    pub peer_rhash: [u8; 16],
    pub accepted: bool,
    /// The preferred role that the node holds, or the one that it asked for
    pub node_type: NodeRegistryType,
    /// Empty on accept
    pub reason: String,
}

/// A bucket after a peer was put in: an entry that is there moves to the new
/// address; a new one needs room.
pub open spec fn peer_put(
    bucket: Map<Seq<u8>, crate::node::NodeRecord>,
    limit: nat,
    key: Seq<u8>,
    rhash: Seq<u8>,
    now_millis: u64,
) -> Map<Seq<u8>, crate::node::NodeRecord> {
    if bucket.contains_key(key) {
        bucket.insert(
            key,
            (crate::node::NodeRecord { rhash, last_seen_millis: now_millis, ..bucket[key] }),
        )
    } else if bucket.dom().len() >= limit {
        bucket
    } else {
        bucket.insert(key, crate::node::unvouched(rhash, now_millis))
    }
}

/// A bucket after a directory listed a peer: an entry that is there is heard of
/// and keeps its address; a new one needs room.
pub open spec fn listed_put(
    bucket: Map<Seq<u8>, crate::node::NodeRecord>,
    limit: nat,
    key: Seq<u8>,
    rhash: Seq<u8>,
    now_millis: u64,
) -> Map<Seq<u8>, crate::node::NodeRecord> {
    if bucket.contains_key(key) {
        super::heard(bucket, key, now_millis)
    } else if bucket.dom().len() >= limit {
        bucket
    } else {
        bucket.insert(key, crate::node::unvouched(rhash, now_millis))
    }
}

/// A bucket after a directory listed several peers, one after the other.
pub open spec fn all_listed(
    bucket: Map<Seq<u8>, crate::node::NodeRecord>,
    limit: nat,
    entries: Seq<NodeRegistryEntry>,
    now_millis: u64,
) -> Map<Seq<u8>, crate::node::NodeRecord>
    decreases entries.len(),
{
    if entries.len() == 0 {
        bucket
    } else {
        listed_put(
            all_listed(bucket, limit, entries.drop_last(), now_millis),
            limit,
            entries.last().node_key@,
            entries.last().node_rhash@,
            now_millis,
        )
    }
}

/// A directory response never redirects a known peer: whoever was registered
/// keeps the address and the binding, whatever the response lists.
pub proof fn directory_never_redirects(
    bucket: Map<Seq<u8>, crate::node::NodeRecord>,
    limit: nat,
    entries: Seq<NodeRegistryEntry>,
    now_millis: u64,
    key: Seq<u8>,
)
    requires
        bucket.contains_key(key),
    ensures
        ({
            let after = all_listed(bucket, limit, entries, now_millis);
            &&& after.contains_key(key)
            &&& after[key].rhash == bucket[key].rhash
            &&& after[key].directory_signature == bucket[key].directory_signature
            &&& after[key].directory_requested_type == bucket[key].directory_requested_type
            &&& after[key].directory_node_types == bucket[key].directory_node_types
        }),
    decreases entries.len(),
{
    if entries.len() > 0 {
        directory_never_redirects(bucket, limit, entries.drop_last(), now_millis, key);
    }
}

/// No role ever holds more nodes than it takes, whatever registers, is put in
/// or is listed.
pub proof fn capacity_is_kept(
    directory: Directory,
    role: NodeRegistryType,
    request: NodeRequest,
    answers: GateAnswers,
    key: Seq<u8>,
    rhash: Seq<u8>,
    entries: Seq<NodeRegistryEntry>,
    now_millis: u64,
)
    requires
        directory.buckets[role].dom().finite(),
        directory.buckets[role].dom().len() <= directory.limits[role],
    ensures
        directory.registered_under(request, answers, now_millis, role).dom().len()
            <= directory.limits[role],
        peer_put(
            directory.buckets[role],
            directory.limits[role],
            key,
            rhash,
            now_millis,
        ).dom().len() <= directory.limits[role],
        all_listed(
            directory.buckets[role],
            directory.limits[role],
            entries,
            now_millis,
        ).dom().len() <= directory.limits[role],
{
    let bucket = directory.buckets[role];
    let limit = directory.limits[role];
    lemma_insert_count(bucket, request.requester_key@, bound_record(request, now_millis));
    if bucket.contains_key(request.requester_key@) {
        lemma_insert_count(
            bucket,
            request.requester_key@,
            (crate::node::NodeRecord {
                last_seen_millis: now_millis,
                ..bucket[request.requester_key@]
            }),
        );
    }
    if bucket.contains_key(key) {
        lemma_insert_count(
            bucket,
            key,
            (crate::node::NodeRecord { rhash, last_seen_millis: now_millis, ..bucket[key] }),
        );
    } else {
        lemma_insert_count(bucket, key, crate::node::unvouched(rhash, now_millis));
    }
    lemma_listed_count(bucket, limit, entries, now_millis);
}

proof fn lemma_insert_count(
    bucket: Map<Seq<u8>, crate::node::NodeRecord>,
    key: Seq<u8>,
    record: crate::node::NodeRecord,
)
    requires
        bucket.dom().finite(),
    ensures
        bucket.insert(key, record).dom().finite(),
        bucket.insert(key, record).dom().len() == bucket.dom().len() + (if bucket.contains_key(
            key,
        ) {
            0int
        } else {
            1int
        }),
{
    assert(bucket.insert(key, record).dom() =~= bucket.dom().insert(key));
}

proof fn lemma_listed_count(
    bucket: Map<Seq<u8>, crate::node::NodeRecord>,
    limit: nat,
    entries: Seq<NodeRegistryEntry>,
    now_millis: u64,
)
    requires
        bucket.dom().finite(),
        bucket.dom().len() <= limit,
    ensures
        all_listed(bucket, limit, entries, now_millis).dom().finite(),
        all_listed(bucket, limit, entries, now_millis).dom().len() <= limit,
    decreases entries.len(),
{
    if entries.len() > 0 {
        lemma_listed_count(bucket, limit, entries.drop_last(), now_millis);
        let before = all_listed(bucket, limit, entries.drop_last(), now_millis);
        let key = entries.last().node_key@;
        if before.contains_key(key) {
            lemma_insert_count(
                before,
                key,
                (crate::node::NodeRecord { last_seen_millis: now_millis, ..before[key] }),
            );
        } else {
            lemma_insert_count(
                before,
                key,
                crate::node::unvouched(entries.last().node_rhash@, now_millis),
            );
        }
    }
}

/// A registration takes nothing away: whoever was registered stays, and only
/// the time of the registering node moves.
pub proof fn registration_keeps_the_others(
    directory: Directory,
    role: NodeRegistryType,
    request: NodeRequest,
    answers: GateAnswers,
    now_millis: u64,
    key: Seq<u8>,
)
    requires
        directory.buckets[role].contains_key(key),
    ensures
        ({
            let before = directory.buckets[role][key];
            let after = directory.registered_under(request, answers, now_millis, role);
            &&& after.contains_key(key)
            &&& key != request.requester_key@ ==> after[key] == before
            &&& key == request.requester_key@ ==> after[key] == (crate::node::NodeRecord {
                last_seen_millis: now_millis,
                ..before
            })
        }),
{
}

/// The bytes that a directory response is signed over.
pub open spec fn response_bytes(
    entries: Seq<NodeRegistryEntry>,
    registry_type: NodeRegistryType,
    responder_rhash: Seq<u8>,
) -> Seq<u8> {
    crate::encoding::packed_directory(
        crate::node::entry_records(entries),
        registry_type.name_text(),
        responder_rhash,
    )
}

/// The bytes that a directory response is signed over: entries, role and
/// address together, so that no signature holds under another role or address.
pub fn directory_response_signature_payload(
    entries: &Vec<NodeRegistryEntry>,
    registry_type: &NodeRegistryType,
    responder_rhash: &[u8; 16],
) -> (r: Vec<u8>)
    ensures
        r@ == response_bytes(entries@, *registry_type, responder_rhash@),
{
    let mut plain: Vec<PlainEntry> = Vec::with_capacity(entries.len());
    let mut i: usize = 0;
    while i < entries.len()
        invariant
            i <= entries@.len(),
            plain@.len() == i,
            forall|j: int|
                0 <= j < i ==> crate::encoding::plain_entry(#[trigger] plain@[j])
                    == crate::node::entry_record(entries@[j]),
        decreases entries@.len() - i,
    {
        let e = &entries[i];
        plain.push(
            (
                copy_bytes(&e.node_key),
                e.node_rhash,
                copy_bytes(&e.signature),
                e.requested_type.name().to_owned(),
                crate::node::list_role_names(&e.node_types),
            ),
        );
        i += 1;
    }
    assert(crate::encoding::plain_entries(plain@) =~= crate::node::entry_records(entries@));
    pack_directory(&plain, registry_type.name(), responder_rhash)
}

/// Every entry carries the binding of the node that it lists.
pub open spec fn entry_bound(entry: NodeRegistryEntry) -> bool {
    crate::rns::identity::binding_ok(
        entry.node_key@,
        entry.node_rhash@,
        entry.requested_type,
        entry.node_types@,
        entry.signature@,
    )
}

/// Why a directory response is refused, if it is.
pub open spec fn response_refusal(
    buckets: super::Buckets,
    response: NodeRegistryResponse,
) -> Option<Seq<char>> {
    if super::roles_of(buckets, response.responder_key@).len() == 0 {
        Some("directory response from unregistered node"@)
    } else if !crate::crypto::hybrid_signature_ok(
        response.signature@,
        response.responder_key@,
        response_bytes(response.entries@, response.registry_type, response.responder_rhash@),
    ) {
        Some("directory response signature invalid"@)
    } else if exists|i: int|
        0 <= i < response.entries@.len() && !entry_bound(#[trigger] response.entries@[i]) {
        Some("directory response entry signature invalid"@)
    } else {
        None
    }
}

/// The entry of a node in the directory.
pub open spec fn lists(
    entry: NodeRegistryEntry,
    key: Seq<u8>,
    record: crate::node::NodeRecord,
) -> bool {
    &&& entry.node_key@ == key
    &&& entry.node_rhash@ == record.rhash
    &&& entry.signature@ == record.directory_signature
    &&& entry.requested_type == record.directory_requested_type
    &&& entry.node_types@ == record.directory_node_types
}

/// A node that can be vouched for: it registered here.
pub open spec fn vouched(record: crate::node::NodeRecord) -> bool {
    record.directory_signature.len() > 0
}

/// Every node that can be vouched for has bound its address and its roles to its
/// key.
pub open spec fn bindings_hold(bucket: Map<Seq<u8>, crate::node::NodeRecord>) -> bool {
    forall|key: Seq<u8>| #[trigger]
        bucket.contains_key(key) && vouched(bucket[key]) ==> crate::rns::identity::binding_ok(
            key,
            bucket[key].rhash,
            bucket[key].directory_requested_type,
            bucket[key].directory_node_types,
            bucket[key].directory_signature,
        )
}

/// The bindings that a role's nodes are vouched for with stay valid, whatever
/// registers with a valid binding, is heard of, is listed or falls silent, and
/// whoever is put in under a new key or at the known address.
pub proof fn bindings_stay_valid(
    directory: Directory,
    role: NodeRegistryType,
    request: NodeRequest,
    answers: GateAnswers,
    key: Seq<u8>,
    rhash: Seq<u8>,
    entries: Seq<NodeRegistryEntry>,
    now_millis: u64,
)
    requires
        bindings_hold(directory.buckets[role]),
        request_bound(request),
        directory.buckets[role].contains_key(key) ==> directory.buckets[role][key].rhash == rhash,
    ensures
        bindings_hold(directory.registered_under(request, answers, now_millis, role)),
        bindings_hold(super::heard(directory.buckets[role], key, now_millis)),
        bindings_hold(
            all_listed(directory.buckets[role], directory.limits[role], entries, now_millis),
        ),
        bindings_hold(super::live(directory.buckets[role], now_millis)),
        bindings_hold(
            peer_put(directory.buckets[role], directory.limits[role], key, rhash, now_millis),
        ),
{
    lemma_listed_bindings(directory.buckets[role], directory.limits[role], entries, now_millis);
}

proof fn lemma_listed_bindings(
    bucket: Map<Seq<u8>, crate::node::NodeRecord>,
    limit: nat,
    entries: Seq<NodeRegistryEntry>,
    now_millis: u64,
)
    requires
        bindings_hold(bucket),
    ensures
        bindings_hold(all_listed(bucket, limit, entries, now_millis)),
    decreases entries.len(),
{
    if entries.len() > 0 {
        lemma_listed_bindings(bucket, limit, entries.drop_last(), now_millis);
    }
}

/// The directory that a node sends is accepted by every node that knows the
/// sender.
pub proof fn directory_is_accepted(
    buckets: super::Buckets,
    config: crate::config::Config,
    role: NodeRegistryType,
    response: NodeRegistryResponse,
    receiver: super::Buckets,
)
    requires
        directory_of(buckets, config, role, response),
        bindings_hold(buckets[role]),
        config.public_key@ == config.identity.ed25519.identity(),
        super::roles_of(receiver, config.public_key@).len() > 0,
    ensures
        response_refusal(receiver, response) is None,
{
    assert forall|i: int| 0 <= i < response.entries@.len() implies entry_bound(
        #[trigger] response.entries@[i],
    ) by {
        let key = response.entries@[i].node_key@;
        assert(buckets[role].contains_key(key) && vouched(buckets[role][key]));
    }
}

/// What became of an acknowledgement.
#[derive(Debug, Clone, Copy, PartialEq, Eq, Structural)]
pub enum AckOutcome {
    /// The peer refused the registration
    Rejected,
    /// Accepted, but without the key of the peer
    MissingKey,
    /// Accepted, but the binding of the peer does not hold
    BadBinding,
    /// Accepted, but there is no room for the peer
    Full,
    /// The peer is in the directory
    Stored,
}

/// What a control request leads to.
#[derive(Debug)]
pub enum ControlOutcome {
    /// An answer to a registration, to be sent to a peer
    Acknowledge { peer_rhash: [u8; 16], ack: NodeRequest },
    /// An acknowledgement was taken in
    Acknowledged(AckOutcome),
    /// A directory, to be sent to a peer, with the control part of its packet
    Respond { peer_rhash: [u8; 16], response: NodeRegistryResponse, control: NodeRequest },
    /// A heartbeat was taken in
    Heard,
}

/// `ack` is the signed answer `reply` of the node with the given configuration.
pub open spec fn acknowledges(
    config: crate::config::Config,
    reply: RegisterReply,
    ack: NodeRequest,
) -> bool {
    &&& ack.requester_key@ == config.public_key@
    &&& ack.requester_rhash == config.rhash
    &&& ack.request_type matches NodeRequestType::RegisterAck {
        accepted,
        node_type,
        responder_key,
        reason,
    }
    &&& accepted == reply.accepted
    &&& node_type == reply.node_type
    &&& responder_key@ == (if reply.accepted {
        config.public_key@
    } else {
        Seq::empty()
    })
    &&& reason@ == reply.reason@
    &&& ack.requester_types@ == config.node_registry_types@
    &&& ack.requested_type == reply.node_type
    &&& crate::rns::identity::binding_ok(
        config.identity.ed25519.identity(),
        config.rhash@,
        reply.node_type,
        config.node_registry_types@,
        ack.binding_signature@,
    )
}

impl<S: Fn(&[u8], &NodeRegistryType) -> bool> NodeRegistry<S> {
    /// What the registry holds and how much it takes.
    pub open spec fn directory(&self) -> Directory {
        Directory {
            buckets: self@,
            limits: Map::new(
                |role: NodeRegistryType| true,
                |role: NodeRegistryType| self.configuration().max_nodes(role),
            ),
        }
    }

    /// The role under which a key is registered, the first in role order.
    pub fn find_node_type_by_public_key(&self, key: &[u8]) -> (r: Option<NodeRegistryType>)
        requires
            self.wf(),
        ensures
            r == (if super::roles_of(self@, key@).len() > 0 {
                Some(super::roles_of(self@, key@)[0])
            } else {
                None
            }),
    {
        let roles = self.find_node_types_by_public_key(key);
        if roles.len() > 0 {
            Some(roles[0])
        } else {
            None
        }
    }

    /// The roles under which a key is registered, in role order.
    pub fn find_node_types_by_public_key(&self, key: &[u8]) -> (r: Vec<NodeRegistryType>)
        requires
            self.wf(),
        ensures
            r@ == super::roles_of(self@, key@),
    {
        let all = NodeRegistryType::all();
        let ghost held = |role: NodeRegistryType| self@[role].contains_key(key@);
        let mut r: Vec<NodeRegistryType> = Vec::new();
        let mut i: usize = 0;
        proof {
            reveal(Seq::filter);
            assert(all@.take(0) =~= Seq::empty());
            assert(r@ =~= all@.take(0).filter(held));
        }
        while i < all.len()
            invariant
                self.wf(),
                i <= all@.len(),
                held == (|role: NodeRegistryType| self@[role].contains_key(key@)),
                r@ == all@.take(i as int).filter(held),
            decreases all@.len() - i,
        {
            proof {
                reveal(Seq::filter);
                assert(all@.take(i + 1).drop_last() =~= all@.take(i as int));
                assert(all@.take(i + 1).last() == all@[i as int]);
            }
            if self.node_is_already_registered(key, &all[i]) {
                r.push(all[i]);
            }
            i += 1;
        }
        assert(all@.take(i as int) =~= all@);
        r
    }

    /// A key may send an action iff it is registered under one of the roles
    /// that govern it.
    pub fn node_may_send_action(&self, key: &[u8], allowed_roles: &[NodeRegistryType]) -> (r: bool)
        requires
            self.wf(),
        ensures
            r == exists|i: int|
                0 <= i < allowed_roles@.len() && self@[#[trigger] allowed_roles@[i]].contains_key(
                    key@,
                ),
            r == may_send(self@, key@, allowed_roles@),
    {
        let mut i: usize = 0;
        while i < allowed_roles.len()
            invariant
                self.wf(),
                i <= allowed_roles@.len(),
                forall|j: int|
                    0 <= j < i ==> !self@[#[trigger] allowed_roles@[j]].contains_key(key@),
            decreases allowed_roles@.len() - i,
        {
            if self.node_is_already_registered(key, &allowed_roles[i]) {
                return true;
            }
            i += 1;
        }
        false
    }

    /// There is no room for another node of a role.
    pub fn type_is_maxed_out(&self, node_type: &NodeRegistryType) -> (r: bool)
        requires
            self.wf(),
        ensures
            r == self.directory().full(*node_type),
    {
        self.node_count(node_type) >= self.config.get_max_node_number(node_type)
    }

    /// Insert or refresh the entry of a peer under a role. Tells whether it is
    /// there afterwards.
    pub fn register_peer(
        &mut self,
        key: Vec<u8>,
        rhash: [u8; 16],
        node_type: &NodeRegistryType,
        now_millis: u64,
    ) -> (r: bool)
        requires
            old(self).wf(),
        ensures
            final(self).wf(),
            final(self)@ == old(self)@.insert(
                *node_type,
                peer_put(
                    old(self)@[*node_type],
                    old(self).configuration().max_nodes(*node_type),
                    key@,
                    rhash@,
                    now_millis,
                ),
            ),
            r == final(self)@[*node_type].contains_key(key@),
            final(self).same_settings(old(self)),
    {
        let role = *node_type;
        let ghost before = self@[role];
        if self.node_is_already_registered(&key, node_type) {
            let nodes = self.nodes_mut(role);
            let ghost stored = nodes@;
            assert(super::records(stored) == before);
            match nodes.get_mut(&key) {
                Some(node) => {
                    node.rhash = rhash;
                    node.last_seen_millis = now_millis;
                },
                None => {},
            }
            assert(super::records(nodes@) =~= before.insert(
                key@,
                (crate::node::NodeRecord {
                    rhash: rhash@,
                    last_seen_millis: now_millis,
                    ..before[key@]
                }),
            ));
            return true;
        }
        if self.type_is_maxed_out(node_type) {
            assert(self@ =~= old(self)@.insert(role, before));
            return false;
        }
        self.put_node(role, key, NodeRegistryNode::new(rhash, now_millis));
        true
    }

    /// Every role that a request qualifies for, the preferred first.
    pub fn select_registration_node_types(&self, request: &NodeRequest) -> (r: Vec<
        NodeRegistryType,
    >)
        requires
            self.wf(),
        ensures
            r@ == priority_roles().filter(
                |role: NodeRegistryType|
                    self.directory().qualifies(request.requester_types@, role),
            ),
            r@ == self.directory().fitting_roles(request.requester_types@),
    {
        let priority: Vec<NodeRegistryType> = vec![
            NodeRegistryType::Finalizer,
            NodeRegistryType::Executor,
            NodeRegistryType::Sentinel,
            NodeRegistryType::Committer,
        ];
        let ghost fits = |role: NodeRegistryType|
            self.directory().qualifies(request.requester_types@, role);
        let mut r: Vec<NodeRegistryType> = Vec::new();
        let mut i: usize = 0;
        proof {
            reveal(Seq::filter);
            assert(priority@ =~= priority_roles());
            assert(priority@.take(0) =~= Seq::empty());
            assert(r@ =~= priority@.take(0).filter(fits));
        }
        while i < priority.len()
            invariant
                self.wf(),
                i <= priority@.len(),
                priority@ == priority_roles(),
                fits == (|role: NodeRegistryType|
                    self.directory().qualifies(request.requester_types@, role)),
                r@ == priority@.take(i as int).filter(fits),
            decreases priority@.len() - i,
        {
            proof {
                reveal(Seq::filter);
                assert(priority@.take(i + 1).drop_last() =~= priority@.take(i as int));
                assert(priority@.take(i + 1).last() == priority@[i as int]);
                assert(priority@[i as int] != NodeRegistryType::Archiver);
            }
            if role_in(&request.requester_types, priority[i]) && !self.type_is_maxed_out(
                &priority[i],
            ) {
                r.push(priority[i]);
            }
            i += 1;
        }
        assert(priority@.take(i as int) =~= priority@);
        r
    }

    /// The preferred role that a request qualifies for.
    pub fn select_registration_node_type(&self, request: &NodeRequest) -> (r: Option<
        NodeRegistryType,
    >)
        requires
            self.wf(),
        ensures
            ({
                let fitting = priority_roles().filter(
                    |role: NodeRegistryType|
                        self.directory().qualifies(request.requester_types@, role),
                );
                r == (if fitting.len() > 0 {
                    Some(fitting[0])
                } else {
                    None
                })
            }),
            r == (if self.directory().fitting_roles(request.requester_types@).len() > 0 {
                Some(self.directory().fitting_roles(request.requester_types@)[0])
            } else {
                None
            }),
    {
        let roles = self.select_registration_node_types(request);
        if roles.len() > 0 {
            Some(roles[0])
        } else {
            None
        }
    }
}

/// The stake check gave an answer for a role.
pub open spec fn gate_said<S: Fn(&[u8], &NodeRegistryType) -> bool>(
    gate: S,
    key: Seq<u8>,
    role: NodeRegistryType,
    answer: bool,
) -> bool {
    exists|k: &[u8], t: &NodeRegistryType|
        k@ == key && *t == role && #[trigger] call_ensures(gate, (k, t), answer)
}

/// `after` and `reply` are what a registration leads to: nothing but a refusal
/// without a valid binding, else what `registered` and `answered` say of the
/// answers that the stake check gave for the roles that count.
pub open spec fn register_outcome<S: Fn(&[u8], &NodeRegistryType) -> bool>(
    before: Directory,
    gate: S,
    request: NodeRequest,
    now_millis: u64,
    after: super::Buckets,
    reply: RegisterReply,
) -> bool {
    if !request_bound(request) {
        &&& after == before.buckets
        &&& reply.peer_rhash == request.requester_rhash
        &&& !reply.accepted
        &&& reply.node_type == request.requested_type
        &&& reply.reason@ == "invalid binding signature"@
    } else {
        exists|answers: GateAnswers|
            {
                &&& forall|role: NodeRegistryType| #[trigger]
                    before.qualifies(request.requester_types@, role)
                        && !before.buckets[role].contains_key(request.requester_key@) ==> gate_said(
                        gate,
                        request.requester_key@,
                        role,
                        answers.answer(role),
                    )
                &&& after == before.registered(request, answers, now_millis)
                &&& #[trigger] before.answered(request, answers, reply)
            }
    }
}

/// What becomes of an acknowledgement.
pub open spec fn ack_outcome(
    before: Directory,
    request: NodeRequest,
    accepted: bool,
    node_type: NodeRegistryType,
    responder_key: Seq<u8>,
) -> AckOutcome {
    if !accepted {
        AckOutcome::Rejected
    } else if responder_key.len() == 0 {
        AckOutcome::MissingKey
    } else if !crate::rns::identity::binding_ok(
        responder_key,
        request.requester_rhash@,
        node_type,
        request.requester_types@,
        request.binding_signature@,
    ) {
        AckOutcome::BadBinding
    } else if before.buckets[node_type].contains_key(responder_key) || !before.full(node_type) {
        AckOutcome::Stored
    } else {
        AckOutcome::Full
    }
}

/// An accepting answer to a registration is taken in by whoever registered: the
/// answering node goes into the directory where there is room for it.
pub proof fn acknowledgement_is_taken_in(
    config: crate::config::Config,
    reply: RegisterReply,
    ack: NodeRequest,
    requester: Directory,
)
    requires
        acknowledges(config, reply, ack),
        reply.accepted,
        config.public_key@ == config.identity.ed25519.identity(),
        config.public_key@.len() > 0,
    ensures
        ack_outcome(requester, ack, true, reply.node_type, config.public_key@) == (
        if requester.buckets[reply.node_type].contains_key(config.public_key@) || !requester.full(
            reply.node_type,
        ) {
            AckOutcome::Stored
        } else {
            AckOutcome::Full
        }),
{
}

/// The nodes after an acknowledgement was taken in.
pub open spec fn ack_buckets(
    before: Directory,
    request: NodeRequest,
    accepted: bool,
    node_type: NodeRegistryType,
    responder_key: Seq<u8>,
    now_millis: u64,
) -> super::Buckets {
    if ack_outcome(before, request, accepted, node_type, responder_key) == AckOutcome::Stored {
        before.buckets.insert(
            node_type,
            peer_put(
                before.buckets[node_type],
                before.limits[node_type],
                responder_key,
                request.requester_rhash@,
                now_millis,
            ),
        )
    } else {
        before.buckets
    }
}

/// `response` is the signed directory of a role: one entry for each node that
/// can be vouched for, and no others.
pub open spec fn directory_of(
    buckets: super::Buckets,
    config: crate::config::Config,
    role: NodeRegistryType,
    response: NodeRegistryResponse,
) -> bool {
    &&& response.responder_key@ == config.public_key@
    &&& response.responder_rhash == config.rhash
    &&& response.registry_type == role
    &&& forall|i: int|
        0 <= i < response.entries@.len() ==> buckets[role].contains_key(
            (#[trigger] response.entries@[i]).node_key@,
        ) && vouched(buckets[role][response.entries@[i].node_key@]) && lists(
            response.entries@[i],
            response.entries@[i].node_key@,
            buckets[role][response.entries@[i].node_key@],
        )
    &&& forall|i: int, j: int|
        0 <= i < j < response.entries@.len() ==> (#[trigger] response.entries@[i]).node_key@ != (
        #[trigger] response.entries@[j]).node_key@
    &&& forall|key: Seq<u8>| #[trigger]
        buckets[role].contains_key(key) && vouched(buckets[role][key]) ==> exists|i: int|
            0 <= i < response.entries@.len() && (#[trigger] response.entries@[i]).node_key@ == key
    &&& crate::crypto::hybrid_signature_ok(
        response.signature@,
        config.identity.ed25519.identity(),
        response_bytes(response.entries@, role, config.rhash@),
    )
}

/// `control` goes with a directory of a role.
pub open spec fn directory_control_of(
    config: crate::config::Config,
    role: NodeRegistryType,
    control: NodeRequest,
) -> bool {
    &&& control.requester_key@ == config.public_key@
    &&& control.requester_rhash == config.rhash
    &&& control.request_type is Request
    &&& control.requester_types@ == config.node_registry_types@
    &&& control.requested_type == role
    &&& control.binding_signature@.len() == 0
}

/// `after` and `outcome` are what a control request leads to.
pub open spec fn control_outcome<S: Fn(&[u8], &NodeRegistryType) -> bool>(
    before: Directory,
    config: crate::config::Config,
    gate: S,
    request: NodeRequest,
    now_millis: u64,
    after: super::Buckets,
    outcome: ControlOutcome,
) -> bool {
    match request.request_type {
        NodeRequestType::Register => {
            &&& outcome matches ControlOutcome::Acknowledge { peer_rhash, ack }
            &&& peer_rhash == request.requester_rhash
            &&& exists|reply: RegisterReply| #[trigger]
                register_outcome(before, gate, request, now_millis, after, reply) && acknowledges(
                    config,
                    reply,
                    ack,
                )
        },
        NodeRequestType::RegisterAck { accepted, node_type, responder_key, .. } => {
            &&& outcome == ControlOutcome::Acknowledged(
                ack_outcome(before, request, accepted, node_type, responder_key@),
            )
            &&& after == ack_buckets(
                before,
                request,
                accepted,
                node_type,
                responder_key@,
                now_millis,
            )
        },
        NodeRequestType::Request => {
            &&& outcome matches ControlOutcome::Respond { peer_rhash, response, control }
            &&& peer_rhash == request.requester_rhash
            &&& directory_of(before.buckets, config, request.requested_type, response)
            &&& directory_control_of(config, request.requested_type, control)
            &&& after == before.buckets
        },
        NodeRequestType::Heartbeat => {
            &&& outcome is Heard
            &&& after == super::heartbeat::heartbeat_buckets(before.buckets, request, now_millis)
        },
    }
}

impl<S: Fn(&[u8], &NodeRegistryType) -> bool> NodeRegistry<S> {
    /// The stake check can be asked about any key and role.
    pub open spec fn gate_open(&self) -> bool {
        forall|k: &[u8], t: &NodeRegistryType| #[trigger] call_requires(self.gate(), (k, t))
    }

    /// Carry a registration out under one role. Tells whether the node holds
    /// the role afterwards, and whether the role was asked for and had room.
    fn register_under(
        &mut self,
        request: &NodeRequest,
        answers: GateAnswers,
        now_millis: u64,
        role: NodeRegistryType,
    ) -> (r: (bool, bool))
        requires
            old(self).wf(),
        ensures
            final(self).wf(),
            final(self)@ == old(self)@.insert(
                role,
                old(self).directory().registered_under(*request, answers, now_millis, role),
            ),
            r.0 == old(self).directory().holds_after(*request, answers, role),
            r.1 == old(self).directory().qualifies(request.requester_types@, role),
            final(self).same_settings(old(self)),
    {
        let qualifies = match role {
            NodeRegistryType::Archiver => false,
            _ => role_in(&request.requester_types, role) && !self.type_is_maxed_out(&role),
        };
        if self.node_is_already_registered(&request.requester_key, &role) {
            self.refresh_last_seen(&request.requester_key, role, now_millis);
            (true, qualifies)
        } else if qualifies && answers.get(role) {
            let node = NodeRegistryNode::with_binding(
                request.requester_rhash,
                now_millis,
                copy_bytes(&request.binding_signature),
                request.requested_type,
                copy_roles(&request.requester_types),
            );
            self.put_node(role, copy_bytes(&request.requester_key), node);
            (true, true)
        } else {
            assert(self@ =~= old(self)@.insert(role, old(self)@[role]));
            (false, qualifies)
        }
    }

    /// Carry out a registration whose binding holds, given what the stake check
    /// says: refresh every role that the node holds, and add it under each
    /// other role that it asked for, that has room and that the check allows.
    pub fn register_with(&mut self, request: &NodeRequest, answers: GateAnswers, now_millis: u64) -> (r:
        RegisterReply)
        requires
            old(self).wf(),
        ensures
            final(self).wf(),
            final(self)@ == old(self).directory().registered(*request, answers, now_millis),
            old(self).directory().answered(*request, answers, r),
            final(self).same_settings(old(self)),
    {
        let ghost start = self.directory();
        let finalizer = self.register_under(
            request,
            answers,
            now_millis,
            NodeRegistryType::Finalizer,
        );
        let executor = self.register_under(
            request,
            answers,
            now_millis,
            NodeRegistryType::Executor,
        );
        let sentinel = self.register_under(
            request,
            answers,
            now_millis,
            NodeRegistryType::Sentinel,
        );
        let committer = self.register_under(
            request,
            answers,
            now_millis,
            NodeRegistryType::Committer,
        );
        let archiver = self.register_under(
            request,
            answers,
            now_millis,
            NodeRegistryType::Archiver,
        );
        proof {
            let goal = start.registered(*request, answers, now_millis);
            assert forall|role: NodeRegistryType| #[trigger] self@[role] == goal[role] by {
                match role {
                    NodeRegistryType::Committer => {},
                    NodeRegistryType::Sentinel => {},
                    NodeRegistryType::Executor => {},
                    NodeRegistryType::Finalizer => {},
                    NodeRegistryType::Archiver => {},
                }
            }
            assert(self@ =~= goal);
            assert(finalizer.0 == start.holds_after(
                *request,
                answers,
                NodeRegistryType::Finalizer,
            ));
            assert(executor.0 == start.holds_after(*request, answers, NodeRegistryType::Executor));
            assert(sentinel.0 == start.holds_after(*request, answers, NodeRegistryType::Sentinel));
            assert(committer.0 == start.holds_after(
                *request,
                answers,
                NodeRegistryType::Committer,
            ));
            assert(archiver.0 == start.holds_after(*request, answers, NodeRegistryType::Archiver));
            assert(finalizer.1 == start.qualifies(
                request.requester_types@,
                NodeRegistryType::Finalizer,
            ));
            assert(executor.1 == start.qualifies(
                request.requester_types@,
                NodeRegistryType::Executor,
            ));
            assert(sentinel.1 == start.qualifies(
                request.requester_types@,
                NodeRegistryType::Sentinel,
            ));
            assert(committer.1 == start.qualifies(
                request.requester_types@,
                NodeRegistryType::Committer,
            ));
        }
        let accepted = finalizer.0 || executor.0 || sentinel.0 || committer.0 || archiver.0;
        let node_type = if !accepted {
            request.requested_type
        } else if finalizer.0 {
            NodeRegistryType::Finalizer
        } else if executor.0 {
            NodeRegistryType::Executor
        } else if sentinel.0 {
            NodeRegistryType::Sentinel
        } else if committer.0 {
            NodeRegistryType::Committer
        } else {
            request.requested_type
        };
        let reason = if accepted {
            String::new()
        } else if finalizer.1 || executor.1 || sentinel.1 || committer.1 {
            "insufficient stake".to_owned()
        } else {
            "no registry type available".to_owned()
        };
        proof {
            assert forall|role: NodeRegistryType| #[trigger]
                start.holds_after(*request, answers, role) implies accepted by {
                match role {
                    NodeRegistryType::Committer => {},
                    NodeRegistryType::Sentinel => {},
                    NodeRegistryType::Executor => {},
                    NodeRegistryType::Finalizer => {},
                    NodeRegistryType::Archiver => {},
                }
            }
            assert forall|role: NodeRegistryType| #[trigger]
                start.qualifies(request.requester_types@, role) implies finalizer.1 || executor.1
                || sentinel.1 || committer.1 by {
                match role {
                    NodeRegistryType::Committer => {},
                    NodeRegistryType::Sentinel => {},
                    NodeRegistryType::Executor => {},
                    NodeRegistryType::Finalizer => {},
                    NodeRegistryType::Archiver => {},
                }
            }
        }
        RegisterReply { peer_rhash: request.requester_rhash, accepted, node_type, reason }
    }

    /// Ask the stake check about a role that a request qualifies for and does not hold.
    fn ask_gate(&self, request: &NodeRequest, role: NodeRegistryType) -> (r: bool)
        requires
            self.wf(),
            self.gate_open(),
            role != NodeRegistryType::Archiver,
        ensures
            self.directory().qualifies(request.requester_types@, role)
                && !self@[role].contains_key(request.requester_key@) ==> gate_said(
                self.gate(),
                request.requester_key@,
                role,
                r,
            ),
    {
        if role_in(&request.requester_types, role) && !self.type_is_maxed_out(&role)
            && !self.node_is_already_registered(&request.requester_key, &role) {
            let key = request.requester_key.as_slice();
            assert(call_requires(self.gate(), (key, &role)));
            let answer = (self.stake_check)(key, &role);
            assert(call_ensures(self.gate(), (key, &role), answer));
            answer
        } else {
            false
        }
    }

    /// Handle a registration. Without a valid binding nothing changes; else it
    /// is carried out with what the stake check says of each role that counts.
    pub fn handle_register(&mut self, request: &NodeRequest, now_millis: u64) -> (r: RegisterReply)
        requires
            old(self).wf(),
            old(self).gate_open(),
        ensures
            final(self).wf(),
            final(self).same_settings(old(self)),
            register_outcome(
                old(self).directory(),
                old(self).gate(),
                *request,
                now_millis,
                final(self)@,
                r,
            ),
    {
        if !check_request(request) {
            return RegisterReply {
                peer_rhash: request.requester_rhash,
                accepted: false,
                node_type: request.requested_type,
                reason: "invalid binding signature".to_owned(),
            };
        }
        let answers = GateAnswers {
            finalizer: self.ask_gate(request, NodeRegistryType::Finalizer),
            executor: self.ask_gate(request, NodeRegistryType::Executor),
            sentinel: self.ask_gate(request, NodeRegistryType::Sentinel),
            committer: self.ask_gate(request, NodeRegistryType::Committer),
        };
        proof {
            assert forall|role: NodeRegistryType| #[trigger]
                self.directory().qualifies(request.requester_types@, role)
                    && !self@[role].contains_key(request.requester_key@) implies gate_said(
                self.gate(),
                request.requester_key@,
                role,
                answers.answer(role),
            ) by {
                match role {
                    NodeRegistryType::Committer => {},
                    NodeRegistryType::Sentinel => {},
                    NodeRegistryType::Executor => {},
                    NodeRegistryType::Finalizer => {},
                    NodeRegistryType::Archiver => {},
                }
            }
        }
        self.register_with(request, answers, now_millis)
    }

    /// The signed answer to a registration.
    pub fn reply_register_ack(&self, reply: &RegisterReply) -> (r: NodeRequest)
        ensures
            acknowledges(self.configuration(), *reply, r),
    {
        let responder_key = if reply.accepted {
            copy_bytes(&self.config.public_key)
        } else {
            Vec::new()
        };
        let binding = match self.config.identity.sign_binding(
            &self.config.rhash,
            &reply.node_type,
            &self.config.node_registry_types,
        ) {
            Ok(binding) => binding,
            Err(_) => Vec::new(),
        };
        NodeRequest {
            requester_key: copy_bytes(&self.config.public_key),
            requester_rhash: self.config.rhash,
            request_type: NodeRequestType::RegisterAck {
                accepted: reply.accepted,
                node_type: reply.node_type,
                responder_key,
                reason: reply.reason.clone(),
            },
            requester_types: copy_roles(&self.config.node_registry_types),
            requested_type: reply.node_type,
            binding_signature: binding,
        }
    }

    /// Take in the answer to our own registration: an accepting peer that gives
    /// its key and binds its address to it, under the role of the answer, goes
    /// into the directory.
    pub fn handle_register_ack(
        &mut self,
        request: &NodeRequest,
        accepted: bool,
        node_type: NodeRegistryType,
        responder_key: &[u8],
        now_millis: u64,
    ) -> (r: AckOutcome)
        requires
            old(self).wf(),
        ensures
            final(self).wf(),
            final(self).same_settings(old(self)),
            r == ack_outcome(
                old(self).directory(),
                *request,
                accepted,
                node_type,
                responder_key@,
            ),
            final(self)@ == ack_buckets(
                old(self).directory(),
                *request,
                accepted,
                node_type,
                responder_key@,
                now_millis,
            ),
    {
        if !accepted {
            return AckOutcome::Rejected;
        }
        if responder_key.len() == 0 {
            return AckOutcome::MissingKey;
        }
        if !NodeIdentity::verify_binding(
            responder_key,
            &request.requester_rhash,
            &node_type,
            &request.requester_types,
            &request.binding_signature,
        ) {
            return AckOutcome::BadBinding;
        }
        if self.register_peer(
            copy_bytes(responder_key),
            request.requester_rhash,
            &node_type,
            now_millis,
        ) {
            AckOutcome::Stored
        } else {
            assert(self@ =~= old(self)@);
            AckOutcome::Full
        }
    }

    /// Register or refresh a peer that a directory lists. The address of a known
    /// peer never changes here.
    pub fn register_directory_peer(
        &mut self,
        key: Vec<u8>,
        rhash: [u8; 16],
        node_type: &NodeRegistryType,
        now_millis: u64,
    ) -> (r: bool)
        requires
            old(self).wf(),
        ensures
            final(self).wf(),
            final(self)@ == old(self)@.insert(
                *node_type,
                listed_put(
                    old(self)@[*node_type],
                    old(self).configuration().max_nodes(*node_type),
                    key@,
                    rhash@,
                    now_millis,
                ),
            ),
            r == final(self)@[*node_type].contains_key(key@),
            final(self).same_settings(old(self)),
    {
        let role = *node_type;
        if self.node_is_already_registered(&key, node_type) {
            self.refresh_last_seen(&key, role, now_millis);
            return true;
        }
        if self.type_is_maxed_out(node_type) {
            assert(self@ =~= old(self)@.insert(role, old(self)@[role]));
            return false;
        }
        self.put_node(role, key, NodeRegistryNode::new(rhash, now_millis));
        true
    }

    /// Apply a directory response: the responder has to be registered, its
    /// signature has to cover entries, role and address, and every entry has to
    /// carry the binding of its own node. Else nothing changes.
    pub fn handle_directory_response(
        &mut self,
        response: &NodeRegistryResponse,
        now_millis: u64,
    ) -> (r: Result<(), PneumaticError>)
        requires
            old(self).wf(),
        ensures
            final(self).wf(),
            final(self).same_settings(old(self)),
            match response_refusal(old(self)@, *response) {
                Some(text) => final(self)@ == old(self)@ && (r matches Err(
                    PneumaticError::Registry(msg),
                ) && msg@ == text),
                None => r is Ok && final(self)@ == old(self)@.insert(
                    response.registry_type,
                    all_listed(
                        old(self)@[response.registry_type],
                        old(self).configuration().max_nodes(response.registry_type),
                        response.entries@,
                        now_millis,
                    ),
                ),
            },
    {
        if self.find_node_type_by_public_key(&response.responder_key).is_none() {
            return Err(
                PneumaticError::Registry("directory response from unregistered node".to_owned()),
            );
        }
        let payload = directory_response_signature_payload(
            &response.entries,
            &response.registry_type,
            &response.responder_rhash,
        );
        if !check_hybrid_signature(&response.signature, &response.responder_key, &payload) {
            return Err(
                PneumaticError::Registry("directory response signature invalid".to_owned()),
            );
        }
        let mut i: usize = 0;
        while i < response.entries.len()
            invariant
                i <= response.entries@.len(),
                forall|j: int| 0 <= j < i ==> entry_bound(#[trigger] response.entries@[j]),
                self.wf(),
                *self == *old(self),
                super::roles_of(old(self)@, response.responder_key@).len() > 0,
                crate::crypto::hybrid_signature_ok(
                    response.signature@,
                    response.responder_key@,
                    response_bytes(
                        response.entries@,
                        response.registry_type,
                        response.responder_rhash@,
                    ),
                ),
            decreases response.entries@.len() - i,
        {
            let entry = &response.entries[i];
            if !NodeIdentity::verify_binding(
                &entry.node_key,
                &entry.node_rhash,
                &entry.requested_type,
                &entry.node_types,
                &entry.signature,
            ) {
                assert(!entry_bound(response.entries@[i as int]));
                return Err(
                    PneumaticError::Registry(
                        "directory response entry signature invalid".to_owned(),
                    ),
                );
            }
            i += 1;
        }
        let role = response.registry_type;
        let ghost start = self@;
        let ghost limit = self.configuration().max_nodes(role);
        let mut k: usize = 0;
        assert(response.entries@.take(0) =~= Seq::empty());
        assert(self@ =~= start.insert(role, start[role]));
        while k < response.entries.len()
            invariant
                k <= response.entries@.len(),
                self.wf(),
                self.same_settings(old(self)),
                role == response.registry_type,
                limit == self.configuration().max_nodes(role),
                self@ == start.insert(
                    role,
                    all_listed(start[role], limit, response.entries@.take(k as int), now_millis),
                ),
            decreases response.entries@.len() - k,
        {
            proof {
                let next = response.entries@.take(k + 1);
                assert(next.drop_last() =~= response.entries@.take(k as int));
                assert(next.last() == response.entries@[k as int]);
            }
            let entry = &response.entries[k];
            let _ = self.register_directory_peer(
                copy_bytes(&entry.node_key),
                entry.node_rhash,
                &role,
                now_millis,
            );
            k += 1;
            assert(self@ =~= start.insert(
                role,
                all_listed(start[role], limit, response.entries@.take(k as int), now_millis),
            ));
        }
        assert(response.entries@.take(k as int) =~= response.entries@);
        Ok(())
    }

    /// The directory of a role: an entry for each node that registered here, so
    /// that it can be vouched for.
    pub fn directory_entries(&self, node_type: &NodeRegistryType) -> (r: Vec<NodeRegistryEntry>)
        requires
            self.wf(),
        ensures
            forall|i: int|
                0 <= i < r@.len() ==> self@[*node_type].contains_key(
                    (#[trigger] r@[i]).node_key@,
                ) && vouched(self@[*node_type][r@[i].node_key@]) && lists(
                    r@[i],
                    r@[i].node_key@,
                    self@[*node_type][r@[i].node_key@],
                ),
            forall|i: int, j: int|
                0 <= i < j < r@.len() ==> (#[trigger] r@[i]).node_key@ != (
                #[trigger] r@[j]).node_key@,
            forall|key: Seq<u8>| #[trigger]
                self@[*node_type].contains_key(key) && vouched(self@[*node_type][key])
                    ==> exists|i: int| 0 <= i < r@.len() && (#[trigger] r@[i]).node_key@ == key,
    {
        let nodes = self.get_nodes(node_type);
        let ghost bucket = self@[*node_type];
        let ghost keys = nodes.key_list();
        let mut r: Vec<NodeRegistryEntry> = Vec::new();
        let mut i: usize = 0;
        proof {
            nodes.lemma_key_list();
        }
        let ghost mut origin: Seq<int> = Seq::empty();
        while i < nodes.len()
            invariant
                nodes.wf(),
                keys == nodes.key_list(),
                keys.no_duplicates(),
                bucket == super::records(nodes@),
                i <= keys.len(),
                forall|j: int| 0 <= j < keys.len() ==> nodes@.contains_key(#[trigger] keys[j]),
                origin.len() == r@.len(),
                forall|j: int|
                    0 <= j < r@.len() ==> 0 <= #[trigger] origin[j] < i && keys[origin[j]]
                        == r@[j].node_key@,
                forall|j: int, k: int|
                    0 <= j < k < r@.len() ==> #[trigger] origin[j] < #[trigger] origin[k],
                forall|j: int|
                    0 <= j < r@.len() ==> bucket.contains_key((#[trigger] r@[j]).node_key@)
                        && vouched(bucket[r@[j].node_key@]) && lists(
                        r@[j],
                        r@[j].node_key@,
                        bucket[r@[j].node_key@],
                    ),
                forall|j: int|
                    0 <= j < i && vouched(bucket[#[trigger] keys[j]]) ==> exists|k: int|
                        0 <= k < r@.len() && (#[trigger] r@[k]).node_key@ == keys[j],
            decreases keys.len() - i,
        {
            let ghost before = r@;
            let node = nodes.value_at(i);
            let ghost key = keys[i as int];
            assert(nodes@.contains_key(key));
            assert(bucket[key] == node@);
            if node.directory_signature.len() > 0 {
                r.push(
                    NodeRegistryEntry {
                        node_key: copy_bytes(nodes.key_at(i)),
                        node_rhash: node.rhash,
                        signature: copy_bytes(&node.directory_signature),
                        requested_type: node.directory_requested_type,
                        node_types: copy_roles(&node.directory_node_types),
                    },
                );
                proof {
                    origin = origin.push(i as int);
                    assert(r@[before.len() as int].node_key@ == key);
                }
            }
            assert forall|j: int| 0 <= j < i + 1 && vouched(bucket[#[trigger] keys[j]]) implies exists|
                k: int,
            | 0 <= k < r@.len() && (#[trigger] r@[k]).node_key@ == keys[j] by {
                if j < i {
                    let k = choose|k: int|
                        0 <= k < before.len() && (#[trigger] before[k]).node_key@ == keys[j];
                    assert(r@[k] == before[k]);
                }
            }
            i += 1;
        }
        proof {
            assert forall|a: int, b: int| 0 <= a < b < r@.len() implies (
            #[trigger] r@[a]).node_key@ != (#[trigger] r@[b]).node_key@ by {
                assert(origin[a] < origin[b]);
                assert(keys[origin[a]] != keys[origin[b]]);
            }
            assert forall|key: Seq<u8>| #[trigger]
                bucket.contains_key(key) && vouched(bucket[key]) implies exists|k: int|
                0 <= k < r@.len() && (#[trigger] r@[k]).node_key@ == key by {
                assert(nodes@.contains_key(key));
                assert(keys.contains(key));
                let j = choose|j: int| 0 <= j < keys.len() && keys[j] == key;
                assert(vouched(bucket[keys[j]]));
            }
        }
        r
    }

    /// The signed directory of a role.
    pub fn directory_response(&self, requested_type: NodeRegistryType) -> (r: NodeRegistryResponse)
        requires
            self.wf(),
        ensures
            directory_of(self@, self.configuration(), requested_type, r),
    {
        let entries = self.directory_entries(&requested_type);
        let payload = directory_response_signature_payload(
            &entries,
            &requested_type,
            &self.config.rhash,
        );
        let signature = match self.config.identity.sign_message(&payload) {
            Ok(signature) => signature,
            Err(_) => Vec::new(),
        };
        NodeRegistryResponse {
            responder_key: copy_bytes(&self.config.public_key),
            responder_rhash: self.config.rhash,
            registry_type: requested_type,
            entries,
            signature,
        }
    }

    /// The control part of the packet that carries a directory.
    pub fn directory_control(&self, requested_type: NodeRegistryType) -> (r: NodeRequest)
        ensures
            directory_control_of(self.configuration(), requested_type, r),
    {
        NodeRequest {
            requester_key: copy_bytes(&self.config.public_key),
            requester_rhash: self.config.rhash,
            request_type: NodeRequestType::Request,
            requester_types: copy_roles(&self.config.node_registry_types),
            requested_type,
            binding_signature: Vec::new(),
        }
    }

    /// Handle a control-plane request.
    pub fn handle_control(&mut self, request: &NodeRequest, now_millis: u64) -> (r: Result<
        ControlOutcome,
        PneumaticError,
    >)
        requires
            old(self).wf(),
            old(self).gate_open(),
        ensures
            final(self).wf(),
            final(self).same_settings(old(self)),
            r matches Ok(outcome) && control_outcome(
                old(self).directory(),
                old(self).configuration(),
                old(self).gate(),
                *request,
                now_millis,
                final(self)@,
                outcome,
            ),
    {
        match &request.request_type {
            NodeRequestType::Register => {
                let reply = self.handle_register(request, now_millis);
                let ack = self.reply_register_ack(&reply);
                Ok(ControlOutcome::Acknowledge { peer_rhash: reply.peer_rhash, ack })
            },
            NodeRequestType::RegisterAck { accepted, node_type, responder_key, reason: _ } => {
                let outcome = self.handle_register_ack(
                    request,
                    *accepted,
                    *node_type,
                    responder_key,
                    now_millis,
                );
                Ok(ControlOutcome::Acknowledged(outcome))
            },
            NodeRequestType::Request => {
                let response = self.directory_response(request.requested_type);
                let control = self.directory_control(request.requested_type);
                Ok(
                    ControlOutcome::Respond {
                        peer_rhash: request.requester_rhash,
                        response,
                        control,
                    },
                )
            },
            NodeRequestType::Heartbeat => {
                self.handle_heartbeat(request, now_millis);
                Ok(ControlOutcome::Heard)
            },
        }
    }
}

} // verus!
