//! What registration, acknowledgement and directory sync guarantee of the
//! directory, whatever is registered, acknowledged or listed.
use super::registration::{AckOutcome, ControlOutcome, Directory, GateAnswers, RegisterReply};
use crate::node::{
    NodeRecord, NodeRegistryEntry, NodeRegistryResponse, NodeRegistryType, NodeRequest,
    NodeRequestType,
};
use vstd::prelude::*;

verus! {

/// A node enters under a role that it did not hold exactly where it asked for the
/// role, the role is not that of an archiver, there is room, and the stake check
/// allowed it; it then enters with the address, the roles and the signature of
/// its own request. Nobody else enters.
pub proof fn admission_needs_request_room_and_stake(
    directory: Directory,
    request: NodeRequest,
    answers: GateAnswers,
    now_millis: u64,
    role: NodeRegistryType,
    key: Seq<u8>,
)
    requires
        !directory.buckets[role].contains_key(key),
    ensures
        ({
            let after = directory.registered(request, answers, now_millis)[role];
            let allowed = match role {
                NodeRegistryType::Finalizer => answers.finalizer,
                NodeRegistryType::Executor => answers.executor,
                NodeRegistryType::Sentinel => answers.sentinel,
                NodeRegistryType::Committer => answers.committer,
                NodeRegistryType::Archiver => false,
            };
            &&& after.contains_key(key) <==> {
                &&& key == request.requester_key@
                &&& request.requester_types@.contains(role)
                &&& directory.buckets[role].dom().len() < directory.limits[role]
                &&& allowed
            }
            &&& after.contains_key(key) ==> {
                &&& after[key].rhash == request.requester_rhash@
                &&& after[key].last_seen_millis == now_millis
                &&& after[key].directory_signature == request.binding_signature@
                &&& after[key].directory_requested_type == request.requested_type
                &&& after[key].directory_node_types == request.requester_types@
            }
        }),
{
}

/// The stake check said nothing but `answer` of a key and a role.
pub open spec fn gate_always_says<S: Fn(&[u8], &NodeRegistryType) -> bool>(
    gate: S,
    key: Seq<u8>,
    role: NodeRegistryType,
    answer: bool,
) -> bool {
    forall|k: &[u8], t: &NodeRegistryType, said: bool|
        k@ == key && *t == role && #[trigger] call_ensures(gate, (k, t), said) ==> said == answer
}

/// A registration without a valid binding is refused and changes nothing.
pub proof fn unbound_registrations_change_nothing<S: Fn(&[u8], &NodeRegistryType) -> bool>(
    before: Directory,
    gate: S,
    request: NodeRequest,
    now_millis: u64,
    after: super::Buckets,
    reply: RegisterReply,
)
    requires
        super::registration::register_outcome(before, gate, request, now_millis, after, reply),
        !crate::crypto::hybrid_signature_ok(
            request.binding_signature@,
            request.requester_key@,
            crate::node::binding_bytes(
                request.requester_rhash@,
                request.requested_type,
                request.requester_types@,
            ),
        ),
    ensures
        after == before.buckets,
        !reply.accepted,
        reply.peer_rhash == request.requester_rhash,
        reply.reason@ == "invalid binding signature"@,
{
}

/// Where the stake check refuses a key for a role, a registration does not bring
/// the key in under that role.
pub proof fn refused_stake_keeps_out<S: Fn(&[u8], &NodeRegistryType) -> bool>(
    before: Directory,
    gate: S,
    request: NodeRequest,
    now_millis: u64,
    after: super::Buckets,
    reply: RegisterReply,
    role: NodeRegistryType,
)
    requires
        super::registration::register_outcome(before, gate, request, now_millis, after, reply),
        !before.buckets[role].contains_key(request.requester_key@),
        gate_always_says(gate, request.requester_key@, role, false),
    ensures
        !after[role].contains_key(request.requester_key@),
{
    if super::registration::request_bound(request) {
        let answers = choose|answers: GateAnswers|
            {
                &&& forall|role: NodeRegistryType| #[trigger]
                    before.qualifies(request.requester_types@, role)
                        && !before.buckets[role].contains_key(request.requester_key@)
                        ==> super::registration::gate_said(
                        gate,
                        request.requester_key@,
                        role,
                        answers.answer(role),
                    )
                &&& after == before.registered(request, answers, now_millis)
                &&& #[trigger] before.answered(request, answers, reply)
            };
        admission_needs_request_room_and_stake(
            before,
            request,
            answers,
            now_millis,
            role,
            request.requester_key@,
        );
        assert(before.qualifies(request.requester_types@, role) ==> !answers.answer(role));
    }
}

/// A registration with a valid binding brings the key in under every role that it
/// asked for, that has room and that the stake check allows, and is accepted.
pub proof fn allowed_registrations_enter<S: Fn(&[u8], &NodeRegistryType) -> bool>(
    before: Directory,
    gate: S,
    request: NodeRequest,
    now_millis: u64,
    after: super::Buckets,
    reply: RegisterReply,
    role: NodeRegistryType,
)
    requires
        super::registration::register_outcome(before, gate, request, now_millis, after, reply),
        crate::rns::identity::binding_ok(
            request.requester_key@,
            request.requester_rhash@,
            request.requested_type,
            request.requester_types@,
            request.binding_signature@,
        ),
        role != NodeRegistryType::Archiver,
        request.requester_types@.contains(role),
        before.buckets[role].dom().len() < before.limits[role],
        gate_always_says(gate, request.requester_key@, role, true),
    ensures
        after[role].contains_key(request.requester_key@),
        after[role][request.requester_key@].last_seen_millis == now_millis,
        reply.accepted,
{
    let answers = choose|answers: GateAnswers|
        {
            &&& forall|role: NodeRegistryType| #[trigger]
                before.qualifies(request.requester_types@, role)
                    && !before.buckets[role].contains_key(request.requester_key@)
                    ==> super::registration::gate_said(
                    gate,
                    request.requester_key@,
                    role,
                    answers.answer(role),
                )
            &&& after == before.registered(request, answers, now_millis)
            &&& #[trigger] before.answered(request, answers, reply)
        };
    assert(before.qualifies(request.requester_types@, role));
    assert(before.holds_after(request, answers, role));
}

/// A registration is accepted exactly where the node is registered under some
/// role afterwards. The answer goes to the address of the request, and names the
/// first role of the node in the order finalizer, executor, sentinel, committer;
/// a refusal names the role that was asked for.
pub proof fn answers_tell_what_became_of_a_registration(
    directory: Directory,
    request: NodeRequest,
    answers: GateAnswers,
    now_millis: u64,
    reply: RegisterReply,
)
    requires
        directory.answered(request, answers, reply),
    ensures
        ({
            let after = directory.registered(request, answers, now_millis);
            let key = request.requester_key@;
            let finalizer = after[NodeRegistryType::Finalizer].contains_key(key);
            let executor = after[NodeRegistryType::Executor].contains_key(key);
            let sentinel = after[NodeRegistryType::Sentinel].contains_key(key);
            let committer = after[NodeRegistryType::Committer].contains_key(key);
            let archiver = after[NodeRegistryType::Archiver].contains_key(key);
            &&& reply.peer_rhash == request.requester_rhash
            &&& reply.accepted <==> finalizer || executor || sentinel || committer || archiver
            &&& reply.accepted <==> reply.reason@.len() == 0
            &&& finalizer ==> reply.node_type == NodeRegistryType::Finalizer
            &&& executor && !finalizer ==> reply.node_type == NodeRegistryType::Executor
            &&& sentinel && !finalizer && !executor ==> reply.node_type
                == NodeRegistryType::Sentinel
            &&& committer && !finalizer && !executor && !sentinel ==> reply.node_type
                == NodeRegistryType::Committer
            &&& !finalizer && !executor && !sentinel && !committer ==> reply.node_type
                == request.requested_type
        }),
{
    reveal_strlit("insufficient stake");
    reveal_strlit("no registry type available");
    let after = directory.registered(request, answers, now_millis);
    assert forall|role: NodeRegistryType| after[role].contains_key(request.requester_key@)
        == #[trigger] directory.holds_after(request, answers, role) by {}
    if reply.accepted {
        let role = choose|role: NodeRegistryType| #[trigger]
            directory.holds_after(request, answers, role);
        assert(after[role].contains_key(request.requester_key@));
    }
    assert(directory.holds_after(request, answers, NodeRegistryType::Finalizer)
        == after[NodeRegistryType::Finalizer].contains_key(request.requester_key@));
    assert(directory.holds_after(request, answers, NodeRegistryType::Executor)
        == after[NodeRegistryType::Executor].contains_key(request.requester_key@));
    assert(directory.holds_after(request, answers, NodeRegistryType::Sentinel)
        == after[NodeRegistryType::Sentinel].contains_key(request.requester_key@));
    assert(directory.holds_after(request, answers, NodeRegistryType::Committer)
        == after[NodeRegistryType::Committer].contains_key(request.requester_key@));
    assert(directory.holds_after(request, answers, NodeRegistryType::Archiver)
        == after[NodeRegistryType::Archiver].contains_key(request.requester_key@));
}

/// A refused registration is told that its stake is too low exactly where there
/// was room for it: under a role that it asked for and that is not full.
pub proof fn refusals_tell_their_reason(
    directory: Directory,
    request: NodeRequest,
    answers: GateAnswers,
    reply: RegisterReply,
)
    requires
        directory.answered(request, answers, reply),
        !reply.accepted,
    ensures
        (reply.reason@ == "insufficient stake"@) <==> exists|role: NodeRegistryType|
            role != NodeRegistryType::Archiver && request.requester_types@.contains(role)
                && (#[trigger] directory.buckets[role]).dom().len() < directory.limits[role],
        reply.reason@ == "insufficient stake"@ || reply.reason@ == "no registry type available"@,
{
    reveal_strlit("insufficient stake");
    reveal_strlit("no registry type available");
    assert("insufficient stake"@.len() == 18);
    assert("no registry type available"@.len() == 26);
    if exists|role: NodeRegistryType|
        role != NodeRegistryType::Archiver && request.requester_types@.contains(role) && (
        #[trigger] directory.buckets[role]).dom().len() < directory.limits[role] {
        let role = choose|role: NodeRegistryType|
            role != NodeRegistryType::Archiver && request.requester_types@.contains(role) && (
            #[trigger] directory.buckets[role]).dom().len() < directory.limits[role];
        assert(directory.qualifies(request.requester_types@, role));
    }
    if exists|role: NodeRegistryType| #[trigger]
        directory.qualifies(request.requester_types@, role) {
        let role = choose|role: NodeRegistryType| #[trigger]
            directory.qualifies(request.requester_types@, role);
        assert(directory.buckets[role].dom().len() < directory.limits[role]);
    }
}

/// The role that a request is placed under first is the one that its answer names:
/// a node that is new everywhere, and that the stake check allows everywhere, is
/// told the first role that it was selected for.
pub proof fn selection_agrees_with_the_answer(
    directory: Directory,
    request: NodeRequest,
    fitting: Seq<NodeRegistryType>,
)
    requires
        fitting == directory.fitting_roles(request.requester_types@),
        forall|role: NodeRegistryType|
            !(#[trigger] directory.buckets[role]).contains_key(request.requester_key@),
    ensures
        ({
            let allowed = GateAnswers {
                finalizer: true,
                executor: true,
                sentinel: true,
                committer: true,
            };
            &&& fitting.len() > 0 ==> fitting[0] == directory.preferred(request, allowed)
            &&& fitting.len() == 0 <==> forall|role: NodeRegistryType|
                !#[trigger] directory.holds_after(request, allowed, role)
        }),
{
    let allowed = GateAnswers { finalizer: true, executor: true, sentinel: true, committer: true };
    let fits = |role: NodeRegistryType| directory.qualifies(request.requester_types@, role);
    let order = super::registration::priority_roles();
    lemma_filter_starts_with_the_first(order, fits);
    assert(order.len() == 4);
    assert(order[0] == NodeRegistryType::Finalizer && order[1] == NodeRegistryType::Executor
        && order[2] == NodeRegistryType::Sentinel && order[3] == NodeRegistryType::Committer);
    assert forall|role: NodeRegistryType| #[trigger]
        directory.holds_after(request, allowed, role) == fits(role) by {
        assert(!directory.buckets[role].contains_key(request.requester_key@));
    }
    assert(fits(order[0]) == directory.holds_after(request, allowed, order[0]));
    assert(fits(order[1]) == directory.holds_after(request, allowed, order[1]));
    assert(fits(order[2]) == directory.holds_after(request, allowed, order[2]));
    assert(fits(order[3]) == directory.holds_after(request, allowed, order[3]));
    if fitting.len() == 0 {
        assert forall|role: NodeRegistryType| !#[trigger] directory.holds_after(
            request,
            allowed,
            role,
        ) by {
            match role {
                NodeRegistryType::Committer => {},
                NodeRegistryType::Sentinel => {},
                NodeRegistryType::Executor => {},
                NodeRegistryType::Finalizer => {},
                NodeRegistryType::Archiver => {},
            }
        }
    }
}

proof fn lemma_filter_starts_with_the_first(
    roles: Seq<NodeRegistryType>,
    fits: spec_fn(NodeRegistryType) -> bool,
)
    ensures
        roles.filter(fits).len() == 0 <==> forall|i: int|
            0 <= i < roles.len() ==> !fits(#[trigger] roles[i]),
        roles.filter(fits).len() > 0 ==> exists|k: int|
            0 <= k < roles.len() && fits(#[trigger] roles[k]) && roles.filter(fits)[0] == roles[k]
                && forall|j: int| 0 <= j < k ==> !fits(#[trigger] roles[j]),
    decreases roles.len(),
{
    reveal(Seq::filter);
    if roles.len() > 0 {
        let front = roles.drop_last();
        let last = roles.len() - 1;
        lemma_filter_starts_with_the_first(front, fits);
        assert(forall|i: int| 0 <= i < front.len() ==> #[trigger] front[i] == roles[i]);
        let kept = front.filter(fits);
        if kept.len() > 0 {
            let k = choose|k: int|
                0 <= k < front.len() && fits(#[trigger] front[k]) && kept[0] == front[k]
                    && forall|j: int| 0 <= j < k ==> !fits(#[trigger] front[j]);
            assert(roles[k] == front[k]);
            assert forall|j: int| 0 <= j < k implies !fits(#[trigger] roles[j]) by {
                assert(front[j] == roles[j]);
            }
            assert(roles.filter(fits)[0] == roles[k]);
        } else {
            assert forall|j: int| 0 <= j < last implies !fits(#[trigger] roles[j]) by {
                assert(front[j] == roles[j]);
            }
            assert(roles[last] == roles.last());
        }
    }
}

/// The roles that a registration is selected for are those that it asked for, that
/// have room and that are not the archiver's.
pub proof fn selection_goes_by_request_and_room(
    directory: Directory,
    requester_types: Seq<NodeRegistryType>,
    role: NodeRegistryType,
)
    ensures
        directory.fitting_roles(requester_types).contains(role) <==> role
            != NodeRegistryType::Archiver && requester_types.contains(role)
            && directory.buckets[role].dom().len() < directory.limits[role],
{
    let fits = |r: NodeRegistryType| directory.qualifies(requester_types, r);
    let order = super::registration::priority_roles();
    super::lemma_filter_holds(order, fits, role);
    assert(order[0] == NodeRegistryType::Finalizer && order[1] == NodeRegistryType::Executor
        && order[2] == NodeRegistryType::Sentinel && order[3] == NodeRegistryType::Committer);
    assert(role != NodeRegistryType::Archiver ==> order.contains(role));
}

/// A key may send an action exactly where one of the roles that govern the action
/// is among the roles of the key; so an unregistered key may send none, and an
/// action that no role governs is sent by nobody.
pub proof fn actions_are_sent_by_their_roles(
    buckets: super::Buckets,
    key: Seq<u8>,
    allowed_roles: Seq<NodeRegistryType>,
)
    ensures
        super::registration::may_send(buckets, key, allowed_roles) <==> exists|
            role: NodeRegistryType,
        |
            #[trigger] allowed_roles.contains(role) && super::roles_of(buckets, key).contains(role),
        super::roles_of(buckets, key).len() == 0 || allowed_roles.len() == 0
            ==> !super::registration::may_send(buckets, key, allowed_roles),
{
    if super::registration::may_send(buckets, key, allowed_roles) {
        let i = choose|i: int|
            0 <= i < allowed_roles.len() && buckets[#[trigger] allowed_roles[i]].contains_key(key);
        super::roles_are_those_registered(buckets, key, allowed_roles[i]);
        assert(allowed_roles.contains(allowed_roles[i]));
    }
    if exists|role: NodeRegistryType| #[trigger]
        allowed_roles.contains(role) && super::roles_of(buckets, key).contains(role) {
        let role = choose|role: NodeRegistryType| #[trigger]
            allowed_roles.contains(role) && super::roles_of(buckets, key).contains(role);
        super::roles_are_those_registered(buckets, key, role);
        let i = choose|i: int| 0 <= i < allowed_roles.len() && allowed_roles[i] == role;
        assert(buckets[allowed_roles[i]].contains_key(key));
    }
}

/// Control requests are answered by their kind, at the address that they came from:
/// a registration with a signed acknowledgement, a directory request with the
/// directory of the role that it asked for. A directory request changes nothing.
pub proof fn control_requests_are_answered_by_their_kind<
    S: Fn(&[u8], &NodeRegistryType) -> bool,
>(
    before: Directory,
    config: crate::config::Config,
    gate: S,
    request: NodeRequest,
    now_millis: u64,
    after: super::Buckets,
    outcome: ControlOutcome,
)
    requires
        super::registration::control_outcome(
            before,
            config,
            gate,
            request,
            now_millis,
            after,
            outcome,
        ),
    ensures
        request.request_type is Register ==> {
            &&& outcome matches ControlOutcome::Acknowledge { peer_rhash, ack }
            &&& peer_rhash == request.requester_rhash
            &&& ack.requester_key@ == config.public_key@
            &&& ack.requester_rhash == config.rhash
            &&& ack.request_type is RegisterAck
            &&& crate::rns::identity::binding_ok(
                config.identity.ed25519.identity(),
                ack.requester_rhash@,
                ack.requested_type,
                ack.requester_types@,
                ack.binding_signature@,
            )
        },
        request.request_type is Request ==> {
            &&& outcome matches ControlOutcome::Respond { peer_rhash, response, control }
            &&& peer_rhash == request.requester_rhash
            &&& response.registry_type == request.requested_type
            &&& response.responder_key@ == config.public_key@
            &&& control.requester_key@ == config.public_key@
            &&& control.requester_rhash == config.rhash
            &&& control.requested_type == request.requested_type
            &&& control.request_type is Request
            &&& after == before.buckets
        },
        request.request_type is RegisterAck ==> outcome is Acknowledged,
        request.request_type is Heartbeat ==> outcome is Heard,
{
}

/// A refusal carries no key, and an acceptance the key of the node that accepts;
/// both name the role and the reason of the answer.
pub proof fn acknowledgements_carry_the_answer(
    config: crate::config::Config,
    reply: RegisterReply,
    ack: NodeRequest,
)
    requires
        super::registration::acknowledges(config, reply, ack),
    ensures
        ack.request_type matches NodeRequestType::RegisterAck {
            accepted,
            node_type,
            responder_key,
            reason,
        } && accepted == reply.accepted && node_type == reply.node_type && reason@
            == reply.reason@ && responder_key@ == (if reply.accepted {
            config.public_key@
        } else {
            Seq::empty()
        }) && ack.requested_type == reply.node_type,
{
}

/// Putting a peer in moves a known peer to the new address and keeps its binding;
/// a new peer enters, without a binding, exactly where there is room. Nobody else
/// is touched.
pub proof fn put_peers_move_or_enter(
    bucket: Map<Seq<u8>, NodeRecord>,
    limit: nat,
    key: Seq<u8>,
    rhash: Seq<u8>,
    now_millis: u64,
    other: Seq<u8>,
)
    requires
        other != key,
    ensures
        ({
            let after = super::registration::peer_put(bucket, limit, key, rhash, now_millis);
            &&& after.contains_key(key) <==> bucket.contains_key(key) || bucket.dom().len() < limit
            &&& after.contains_key(key) ==> after[key].rhash == rhash && after[key].last_seen_millis
                == now_millis
            &&& bucket.contains_key(key) ==> {
                &&& after[key].directory_signature == bucket[key].directory_signature
                &&& after[key].directory_requested_type == bucket[key].directory_requested_type
                &&& after[key].directory_node_types == bucket[key].directory_node_types
            }
            &&& after.contains_key(key) && !bucket.contains_key(key)
                ==> after[key].directory_signature.len() == 0
            &&& after.contains_key(other) == bucket.contains_key(other)
            &&& bucket.contains_key(other) ==> after[other] == bucket[other]
        }),
{
}

/// A directory listing adds nobody but those that it lists, and these without a
/// binding; while there is room, it adds all of them. Who is there already is
/// heard of where listed, and else unchanged.
pub proof fn listed_peers_enter_while_there_is_room(
    bucket: Map<Seq<u8>, NodeRecord>,
    limit: nat,
    entries: Seq<NodeRegistryEntry>,
    now_millis: u64,
    key: Seq<u8>,
)
    requires
        bucket.dom().finite(),
    ensures
        ({
            let after = super::registration::all_listed(bucket, limit, entries, now_millis);
            let listed = exists|i: int|
                0 <= i < entries.len() && (#[trigger] entries[i]).node_key@ == key;
            &&& after.dom().finite()
            &&& after.dom().len() <= bucket.dom().len() + entries.len()
            &&& after.contains_key(key) ==> bucket.contains_key(key) || listed
            &&& bucket.contains_key(key) ==> after.contains_key(key)
            &&& listed && bucket.dom().len() + entries.len() <= limit ==> after.contains_key(key)
            &&& bucket.contains_key(key) && !listed ==> after[key] == bucket[key]
            &&& after.contains_key(key) && listed ==> after[key].last_seen_millis == now_millis
            &&& after.contains_key(key) && !bucket.contains_key(key) ==> {
                &&& after[key].directory_signature.len() == 0
                &&& exists|i: int|
                    0 <= i < entries.len() && (#[trigger] entries[i]).node_key@ == key
                        && after[key].rhash == entries[i].node_rhash@
            }
        }),
    decreases entries.len(),
{
    if entries.len() > 0 {
        let front = entries.drop_last();
        let last = entries.last();
        listed_peers_enter_while_there_is_room(bucket, limit, front, now_millis, key);
        listed_peers_enter_while_there_is_room(bucket, limit, front, now_millis, last.node_key@);
        let before = super::registration::all_listed(bucket, limit, front, now_millis);
        let after = super::registration::all_listed(bucket, limit, entries, now_millis);
        assert(after.dom() =~= before.dom() || after.dom() =~= before.dom().insert(last.node_key@));
        assert(forall|i: int| 0 <= i < front.len() ==> #[trigger] front[i] == entries[i]);
        assert(entries[entries.len() - 1] == last);
        let listed = exists|i: int|
            0 <= i < entries.len() && (#[trigger] entries[i]).node_key@ == key;
        let listed_before = exists|i: int|
            0 <= i < front.len() && (#[trigger] front[i]).node_key@ == key;
        if listed_before {
            let i = choose|i: int| 0 <= i < front.len() && (#[trigger] front[i]).node_key@ == key;
            assert(entries[i].node_key@ == key);
        }
        if listed && key != last.node_key@ {
            let i = choose|i: int|
                0 <= i < entries.len() && (#[trigger] entries[i]).node_key@ == key;
            assert(front[i].node_key@ == key);
            assert(listed_before);
        }
        if before.contains_key(key) && !bucket.contains_key(key) {
            let i = choose|i: int|
                0 <= i < front.len() && (#[trigger] front[i]).node_key@ == key && before[key].rhash
                    == front[i].node_rhash@;
            assert(entries[i].node_key@ == key && before[key].rhash == entries[i].node_rhash@);
        }
    }
}

/// A new peer enters at the address under which the directory lists it first.
pub proof fn the_first_listing_gives_the_address(
    bucket: Map<Seq<u8>, NodeRecord>,
    limit: nat,
    entries: Seq<NodeRegistryEntry>,
    now_millis: u64,
    first: int,
)
    requires
        bucket.dom().finite(),
        bucket.dom().len() + entries.len() <= limit,
        0 <= first < entries.len(),
        !bucket.contains_key(entries[first].node_key@),
        forall|i: int|
            0 <= i < first ==> (#[trigger] entries[i]).node_key@ != entries[first].node_key@,
    ensures
        ({
            let after = super::registration::all_listed(bucket, limit, entries, now_millis);
            &&& after.contains_key(entries[first].node_key@)
            &&& after[entries[first].node_key@].rhash == entries[first].node_rhash@
        }),
    decreases entries.len(),
{
    let front = entries.drop_last();
    let key = entries[first].node_key@;
    assert(forall|i: int| 0 <= i < front.len() ==> #[trigger] front[i] == entries[i]);
    listed_peers_enter_while_there_is_room(bucket, limit, front, now_millis, key);
    if first < front.len() {
        assert(front[first] == entries[first]);
        the_first_listing_gives_the_address(bucket, limit, front, now_millis, first);
    }
}

/// A directory response is taken in exactly where its sender is registered here
/// under some role, signed the entries, the role and its address, and every entry
/// carries the signature of the node that it lists.
pub proof fn only_signed_directories_are_taken_in(
    buckets: super::Buckets,
    response: NodeRegistryResponse,
)
    ensures
        super::registration::response_refusal(buckets, response) is None <==> {
            &&& exists|role: NodeRegistryType|
                (#[trigger] buckets[role]).contains_key(response.responder_key@)
            &&& crate::crypto::hybrid_signature_ok(
                response.signature@,
                response.responder_key@,
                super::registration::response_bytes(
                    response.entries@,
                    response.registry_type,
                    response.responder_rhash@,
                ),
            )
            &&& forall|i: int|
                0 <= i < response.entries@.len() ==> crate::crypto::hybrid_signature_ok(
                    (#[trigger] response.entries@[i]).signature@,
                    response.entries@[i].node_key@,
                    crate::node::binding_bytes(
                        response.entries@[i].node_rhash@,
                        response.entries@[i].requested_type,
                        response.entries@[i].node_types@,
                    ),
                )
        },
{
    let key = response.responder_key@;
    let roles = super::roles_of(buckets, key);
    if roles.len() > 0 {
        super::roles_are_those_registered(buckets, key, roles[0]);
        assert(roles.contains(roles[0]));
        assert(buckets[roles[0]].contains_key(key));
    }
    if exists|role: NodeRegistryType| (#[trigger] buckets[role]).contains_key(key) {
        let role = choose|role: NodeRegistryType| (#[trigger] buckets[role]).contains_key(key);
        super::roles_are_those_registered(buckets, key, role);
        assert(roles.contains(role));
    }
    assert(forall|i: int|
        0 <= i < response.entries@.len() ==> (super::registration::entry_bound(
            #[trigger] response.entries@[i],
        ) <==> crate::crypto::hybrid_signature_ok(
            response.entries@[i].signature@,
            response.entries@[i].node_key@,
            crate::node::binding_bytes(
                response.entries@[i].node_rhash@,
                response.entries@[i].requested_type,
                response.entries@[i].node_types@,
            ),
        )));
}

/// The size of what a directory lists stays within what the encoding can count.
pub open spec fn short_listing(entries: Seq<NodeRegistryEntry>) -> bool {
    &&& entries.len() <= u32::MAX
    &&& forall|i: int|
        0 <= i < entries.len() ==> {
            &&& (#[trigger] entries[i]).node_key@.len() <= u32::MAX
            &&& entries[i].signature@.len() <= u32::MAX
            &&& entries[i].node_types@.len() <= u32::MAX
        }
}

/// A directory signature covers the entries, the role and the address of the
/// sender: directories that differ in any of these are signed over different
/// bytes.
pub proof fn directory_signatures_cover_everything(
    entries1: Seq<NodeRegistryEntry>,
    role1: NodeRegistryType,
    rhash1: Seq<u8>,
    entries2: Seq<NodeRegistryEntry>,
    role2: NodeRegistryType,
    rhash2: Seq<u8>,
    i: int,
)
    requires
        short_listing(entries1),
        short_listing(entries2),
        rhash1.len() == 16,
        rhash2.len() == 16,
        super::registration::response_bytes(entries1, role1, rhash1)
            == super::registration::response_bytes(entries2, role2, rhash2),
    ensures
        role1 == role2,
        rhash1 == rhash2,
        entries1.len() == entries2.len(),
        0 <= i < entries1.len() ==> {
            &&& entries1[i].node_key@ == entries2[i].node_key@
            &&& entries1[i].node_rhash@ == entries2[i].node_rhash@
            &&& entries1[i].signature@ == entries2[i].signature@
            &&& entries1[i].requested_type == entries2[i].requested_type
            &&& entries1[i].node_types@ == entries2[i].node_types@
        },
{
    let a = crate::node::entry_records(entries1);
    let b = crate::node::entry_records(entries2);
    lemma_records_short(entries1);
    lemma_records_short(entries2);
    crate::node::role_names_are_short(Seq::empty());
    crate::encoding::directories_are_readable(
        a,
        role1.name_text(),
        rhash1,
        b,
        role2.name_text(),
        rhash2,
    );
    crate::node::names_tell_roles(role1, role2, Seq::empty(), Seq::empty());
    assert(a.len() == entries1.len());
    assert(b.len() == entries2.len());
    if 0 <= i < entries1.len() {
        crate::node::entry_records_tell_entries(entries1, entries2, i);
    }
}

proof fn lemma_records_short(entries: Seq<NodeRegistryEntry>)
    requires
        short_listing(entries),
    ensures
        crate::node::entry_records(entries).len() == entries.len(),
        forall|i: int|
            0 <= i < entries.len() ==> crate::encoding::short_entry(
                #[trigger] crate::node::entry_records(entries)[i],
            ),
{
    assert forall|i: int| 0 <= i < entries.len() implies crate::encoding::short_entry(
        #[trigger] crate::node::entry_records(entries)[i],
    ) by {
        crate::node::role_names_are_short(entries[i].node_types@);
        assert(crate::node::entry_records(entries)[i] == crate::node::entry_record(entries[i]));
        assert(entries[i].node_rhash@.len() == 16);
    }
}

/// An acknowledgement changes the directory exactly where it accepts, names a key
/// that signed the address and the role, and that key is known or there is room;
/// the peer is then found at that address, and nothing else changed.
pub proof fn acknowledgements_bring_in_their_sender(
    before: Directory,
    request: NodeRequest,
    accepted: bool,
    node_type: NodeRegistryType,
    responder_key: Seq<u8>,
    now_millis: u64,
    role: NodeRegistryType,
)
    requires
        forall|t: NodeRegistryType| #[trigger] before.buckets.contains_key(t),
    ensures
        ({
            let after = super::registration::ack_buckets(
                before,
                request,
                accepted,
                node_type,
                responder_key,
                now_millis,
            );
            let outcome = super::registration::ack_outcome(
                before,
                request,
                accepted,
                node_type,
                responder_key,
            );
            let signed = crate::crypto::hybrid_signature_ok(
                request.binding_signature@,
                responder_key,
                crate::node::binding_bytes(
                    request.requester_rhash@,
                    node_type,
                    request.requester_types@,
                ),
            );
            let fits = before.buckets[node_type].contains_key(responder_key)
                || before.buckets[node_type].dom().len() < before.limits[node_type];
            &&& outcome == AckOutcome::Stored <==> accepted && responder_key.len() > 0 && signed
                && fits
            &&& outcome == AckOutcome::Rejected <==> !accepted
            &&& outcome == AckOutcome::MissingKey <==> accepted && responder_key.len() == 0
            &&& outcome == AckOutcome::BadBinding <==> accepted && responder_key.len() > 0
                && !signed
            &&& outcome != AckOutcome::Stored ==> after == before.buckets
            &&& outcome == AckOutcome::Stored ==> {
                &&& after[node_type].contains_key(responder_key)
                &&& after[node_type][responder_key].rhash == request.requester_rhash@
                &&& after[node_type][responder_key].last_seen_millis == now_millis
                &&& role != node_type ==> after[role] == before.buckets[role]
                &&& after[node_type].remove(responder_key) == before.buckets[node_type].remove(
                    responder_key,
                )
            }
        }),
{
    let bucket = before.buckets[node_type];
    let put = super::registration::peer_put(
        bucket,
        before.limits[node_type],
        responder_key,
        request.requester_rhash@,
        now_millis,
    );
    assert(put.remove(responder_key) =~= bucket.remove(responder_key));
}

/// The directory that a node sends lists exactly the nodes that signed their own
/// entry when they registered, each with its own address, roles and signature,
/// under the sender's own key.
pub proof fn sent_directories_list_who_registered(
    buckets: super::Buckets,
    config: crate::config::Config,
    role: NodeRegistryType,
    response: NodeRegistryResponse,
    key: Seq<u8>,
)
    requires
        super::registration::directory_of(buckets, config, role, response),
    ensures
        response.registry_type == role,
        response.responder_key@ == config.public_key@,
        response.responder_rhash == config.rhash,
        (exists|i: int|
            0 <= i < response.entries@.len() && (#[trigger] response.entries@[i]).node_key@ == key)
            <==> buckets[role].contains_key(key) && buckets[role][key].directory_signature.len()
            > 0,
        forall|i: int|
            0 <= i < response.entries@.len() && (#[trigger] response.entries@[i]).node_key@ == key
                ==> {
                &&& response.entries@[i].node_rhash@ == buckets[role][key].rhash
                &&& response.entries@[i].signature@ == buckets[role][key].directory_signature
                &&& response.entries@[i].requested_type
                    == buckets[role][key].directory_requested_type
                &&& response.entries@[i].node_types@ == buckets[role][key].directory_node_types
            },
{
    if buckets[role].contains_key(key) && buckets[role][key].directory_signature.len() > 0 {
        assert(super::registration::vouched(buckets[role][key]));
    }
}

} // verus!
