//! Heartbeats: a signed request refreshes the liveness of its sender.
use super::registration::check_request;
use super::NodeRegistry;
use crate::node::{NodeRegistryType, NodeRequest};
use vstd::prelude::*;

verus! {

/// The nodes after a heartbeat: a registered sender whose binding holds is heard
/// of under the first of its roles.
pub open spec fn heartbeat_buckets(
    buckets: super::Buckets,
    request: NodeRequest,
    now_millis: u64,
) -> super::Buckets {
    let roles = super::roles_of(buckets, request.requester_key@);
    if super::registration::request_bound(request) && roles.len() > 0 {
        buckets.insert(roles[0], super::heard(buckets[roles[0]], request.requester_key@, now_millis))
    } else {
        buckets
    }
}

/// A forged heartbeat, and one of an unknown node, changes nothing; no heartbeat
/// adds or removes a node, or changes anything but a time.
pub proof fn heartbeat_only_refreshes(
    buckets: super::Buckets,
    request: NodeRequest,
    now_millis: u64,
    role: NodeRegistryType,
    key: Seq<u8>,
)
    requires
        forall|t: NodeRegistryType| #[trigger] buckets.contains_key(t),
    ensures
        !super::registration::request_bound(request) ==> heartbeat_buckets(
            buckets,
            request,
            now_millis,
        ) == buckets,
        heartbeat_buckets(buckets, request, now_millis)[role].contains_key(key)
            == buckets[role].contains_key(key),
        buckets[role].contains_key(key) && key != request.requester_key@ ==> heartbeat_buckets(
            buckets,
            request,
            now_millis,
        )[role][key] == buckets[role][key],
        buckets[role].contains_key(key) ==> heartbeat_buckets(
            buckets,
            request,
            now_millis,
        )[role][key].rhash == buckets[role][key].rhash,
{
}

/// A heartbeat whose binding holds keeps its sender alive: under the first role
/// that the sender is registered for, it is as if heard of now.
pub proof fn valid_heartbeats_refresh_their_sender(
    buckets: super::Buckets,
    request: NodeRequest,
    now_millis: u64,
    role: NodeRegistryType,
)
    requires
        forall|t: NodeRegistryType| #[trigger] buckets.contains_key(t),
        crate::rns::identity::binding_ok(
            request.requester_key@,
            request.requester_rhash@,
            request.requested_type,
            request.requester_types@,
            request.binding_signature@,
        ),
        buckets[role].contains_key(request.requester_key@),
        forall|t: NodeRegistryType|
            #![trigger buckets[t]]
            t.position() < role.position() ==> !buckets[t].contains_key(request.requester_key@),
    ensures
        heartbeat_buckets(
            buckets,
            request,
            now_millis,
        )[role][request.requester_key@].last_seen_millis == now_millis,
        forall|t: NodeRegistryType|
            t != role ==> #[trigger] heartbeat_buckets(buckets, request, now_millis)[t]
                == buckets[t],
{
    let key = request.requester_key@;
    let roles = super::roles_of(buckets, key);
    super::roles_are_those_registered(buckets, key, role);
    assert(roles.contains(role));
    let k = choose|k: int| 0 <= k < roles.len() && roles[k] == role;
    super::roles_are_those_registered(buckets, key, roles[0]);
    assert(roles.contains(roles[0]));
    assert(buckets[roles[0]].contains_key(key));
    assert(roles[0] == role);
}

impl<S: Fn(&[u8], &NodeRegistryType) -> bool> NodeRegistry<S> {
    /// Take in a heartbeat. Without a valid binding it is dropped.
    pub fn handle_heartbeat(&mut self, request: &NodeRequest, now_millis: u64)
        requires
            old(self).wf(),
        ensures
            final(self).wf(),
            final(self)@ == heartbeat_buckets(old(self)@, *request, now_millis),
            final(self).same_settings(old(self)),
    {
        if !check_request(request) {
            return;
        }
        match self.find_node_type_by_public_key(&request.requester_key) {
            Some(role) => {
                self.refresh_last_seen(&request.requester_key, role, now_millis);
            },
            None => {},
        }
    }
}

} // verus!
