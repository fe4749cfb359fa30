use pneumatic_core::config::{Config, TypeConfigs};
use pneumatic_core::conns::ConnError;
use pneumatic_core::crypto::AsymCryptoProvider;
use pneumatic_core::errors::PneumaticError;
use pneumatic_core::keyed_store::KeyedStore;
use pneumatic_core::node::registry::fanout::{
    bounded_outcome, direct_failure, transport_failure, SendEnd,
};
use pneumatic_core::node::registry::registration::{
    directory_response_signature_payload, AckOutcome, ControlOutcome, GateAnswers,
};
use pneumatic_core::node::registry::NodeRegistry;
use pneumatic_core::node::{
    NodeRegistryEntry, NodeRegistryResponse, NodeRegistryType, NodeRequest, NodeRequestType,
    NodeTypeConfig,
};
use pneumatic_core::rns::identity::NodeIdentity;
use std::sync::{Arc, Mutex};

fn config_with(types: &[(NodeRegistryType, usize)]) -> Arc<Config> {
    let mut type_configs = TypeConfigs::new();
    for (t, max) in types {
        type_configs.insert(*t, NodeTypeConfig { min: 0, max: *max, min_stake: 0 });
    }
    Arc::new(Config::new_for_testing("test_env".to_string(), KeyedStore::new(), type_configs))
}

fn allow_all(_key: &[u8], _role: &NodeRegistryType) -> bool {
    true
}

fn registry_with_capacity(
    types: &[(NodeRegistryType, usize)],
) -> NodeRegistry<fn(&[u8], &NodeRegistryType) -> bool> {
    NodeRegistry::init(config_with(types), allow_all)
}

fn register_request(types: Vec<NodeRegistryType>) -> NodeRequest {
    NodeRequest {
        requester_key: vec![1],
        requester_rhash: [0u8; 16],
        request_type: NodeRequestType::Register,
        requester_types: types,
        requested_type: NodeRegistryType::Committer,
        binding_signature: vec![],
    }
}

fn signed_request(
    identity: &NodeIdentity,
    request_type: NodeRequestType,
    requested_type: NodeRegistryType,
    types: Vec<NodeRegistryType>,
) -> NodeRequest {
    let binding = identity.sign_binding(&identity.rhash, &requested_type, &types).expect("sign binding");
    NodeRequest {
        requester_key: identity.ed25519.public_key().unwrap(),
        requester_rhash: identity.rhash,
        request_type,
        requester_types: types,
        requested_type,
        binding_signature: binding,
    }
}

fn register_multi_bucket<S: Fn(&[u8], &NodeRegistryType) -> bool>(
    reg: &mut NodeRegistry<S>,
    identity: &NodeIdentity,
    requested_type: NodeRegistryType,
    types: Vec<NodeRegistryType>,
) -> Vec<u8> {
    let request = signed_request(identity, NodeRequestType::Register, requested_type, types);
    reg.handle_register(&request, 0);
    identity.ed25519.public_key().unwrap()
}

fn register_node<S: Fn(&[u8], &NodeRegistryType) -> bool>(
    reg: &mut NodeRegistry<S>,
    identity: &NodeIdentity,
    requested_type: NodeRegistryType,
) -> NodeRegistryType {
    let key = register_multi_bucket(reg, identity, requested_type, vec![requested_type]);
    reg.find_node_type_by_public_key(&key).expect("node registered")
}

fn valid_entry(identity: &NodeIdentity, requested_type: NodeRegistryType) -> NodeRegistryEntry {
    let node_types = vec![requested_type];
    let signature = identity.sign_binding(&identity.rhash, &requested_type, &node_types).unwrap();
    NodeRegistryEntry {
        node_key: identity.ed25519.public_key().unwrap(),
        node_rhash: identity.rhash,
        signature,
        requested_type,
        node_types,
    }
}

fn envelope_signature(
    responder: &NodeIdentity,
    entries: &Vec<NodeRegistryEntry>,
    registry_type: &NodeRegistryType,
    responder_rhash: [u8; 16],
) -> Vec<u8> {
    let payload = directory_response_signature_payload(entries, registry_type, &responder_rhash);
    responder.sign_message(&payload).unwrap()
}

fn response_from(
    responder: &NodeIdentity,
    registry_type: NodeRegistryType,
    entries: Vec<NodeRegistryEntry>,
    signature: Vec<u8>,
) -> NodeRegistryResponse {
    NodeRegistryResponse {
        responder_key: responder.ed25519.public_key().unwrap(),
        responder_rhash: responder.rhash,
        registry_type,
        entries,
        signature,
    }
}

#[test]
fn select_prefers_finalizer_over_lower_types() {
    let reg = registry_with_capacity(&[
        (NodeRegistryType::Finalizer, 5),
        (NodeRegistryType::Executor, 5),
        (NodeRegistryType::Sentinel, 5),
        (NodeRegistryType::Committer, 5),
    ]);
    let req = register_request(vec![NodeRegistryType::Committer, NodeRegistryType::Finalizer]);
    assert_eq!(reg.select_registration_node_type(&req), Some(NodeRegistryType::Finalizer));
}

#[test]
fn select_falls_back_to_executor() {
    let reg = registry_with_capacity(&[(NodeRegistryType::Executor, 5), (NodeRegistryType::Committer, 5)]);
    let req = register_request(vec![NodeRegistryType::Committer, NodeRegistryType::Executor]);
    assert_eq!(reg.select_registration_node_type(&req), Some(NodeRegistryType::Executor));
}

#[test]
fn select_skips_maxed_out_types() {
    let mut reg = registry_with_capacity(&[(NodeRegistryType::Finalizer, 1), (NodeRegistryType::Committer, 1)]);
    assert!(reg.register_peer(vec![99], [1u8; 16], &NodeRegistryType::Finalizer, 0));
    let req = register_request(vec![NodeRegistryType::Committer, NodeRegistryType::Finalizer]);
    assert_eq!(reg.select_registration_node_type(&req), Some(NodeRegistryType::Committer));
}

#[test]
fn select_returns_none_when_nothing_fits() {
    let mut reg = registry_with_capacity(&[(NodeRegistryType::Finalizer, 1)]);
    reg.register_peer(vec![99], [1u8; 16], &NodeRegistryType::Finalizer, 0);
    let req = register_request(vec![NodeRegistryType::Finalizer]);
    assert_eq!(reg.select_registration_node_type(&req), None);
}

#[test]
fn find_node_types_by_public_key_returns_full_set() {
    let mut reg = registry_with_capacity(&[(NodeRegistryType::Committer, 5), (NodeRegistryType::Sentinel, 5)]);
    let id = NodeIdentity::generate_in_memory();
    register_multi_bucket(
        &mut reg,
        &id,
        NodeRegistryType::Committer,
        vec![NodeRegistryType::Committer, NodeRegistryType::Sentinel],
    );
    let key = id.ed25519.public_key().unwrap();
    assert_eq!(
        reg.find_node_types_by_public_key(&key),
        vec![NodeRegistryType::Committer, NodeRegistryType::Sentinel]
    );
    assert_eq!(reg.find_node_type_by_public_key(&key), Some(NodeRegistryType::Committer));
    assert!(reg.find_node_types_by_public_key(&vec![9, 9, 9]).is_empty());
}

#[test]
fn multi_bucket_registration_same_identity() {
    let mut reg = registry_with_capacity(&[
        (NodeRegistryType::Committer, 5),
        (NodeRegistryType::Sentinel, 5),
        (NodeRegistryType::Executor, 5),
        (NodeRegistryType::Finalizer, 5),
    ]);
    let id = NodeIdentity::generate_in_memory();
    let key = register_multi_bucket(
        &mut reg,
        &id,
        NodeRegistryType::Sentinel,
        vec![NodeRegistryType::Committer, NodeRegistryType::Sentinel, NodeRegistryType::Executor],
    );
    assert!(
        reg.get_nodes(&NodeRegistryType::Committer).contains_key(&key),
        "composite identity must land under Committer"
    );
    assert!(
        reg.get_nodes(&NodeRegistryType::Sentinel).contains_key(&key),
        "composite identity must land under Sentinel"
    );
    assert!(
        reg.get_nodes(&NodeRegistryType::Executor).contains_key(&key),
        "composite identity must land under Executor"
    );
    assert!(
        !reg.get_nodes(&NodeRegistryType::Finalizer).contains_key(&key),
        "an undeclared role must not be registered"
    );
}

#[test]
fn role_set_auth_rejects_foreign_action() {
    let mut reg = registry_with_capacity(&[
        (NodeRegistryType::Committer, 5),
        (NodeRegistryType::Sentinel, 5),
        (NodeRegistryType::Executor, 5),
        (NodeRegistryType::Finalizer, 5),
    ]);
    let id = NodeIdentity::generate_in_memory();
    let key = id.ed25519.public_key().unwrap();
    register_multi_bucket(
        &mut reg,
        &id,
        NodeRegistryType::Committer,
        vec![NodeRegistryType::Committer, NodeRegistryType::Executor],
    );
    assert!(
        reg.node_may_send_action(&key, &[NodeRegistryType::Executor]),
        "a composite role must be able to send its secondary role's action"
    );
    assert!(
        reg.node_may_send_action(&key, &[NodeRegistryType::Committer]),
        "a composite role must be able to send its primary role's action"
    );
    assert!(
        !reg.node_may_send_action(&key, &[NodeRegistryType::Finalizer]),
        "an action for a role the node is not registered under must be rejected"
    );
    assert!(!reg.node_may_send_action(&vec![1, 2, 3], &[NodeRegistryType::Committer]));
}

#[test]
fn capacity_tracks_and_refresh_bypasses_it() {
    let mut reg = registry_with_capacity(&[(NodeRegistryType::Sentinel, 2)]);
    assert!(!reg.type_is_maxed_out(&NodeRegistryType::Sentinel));
    assert!(reg.register_peer(vec![1], [1u8; 16], &NodeRegistryType::Sentinel, 0));
    assert!(reg.register_peer(vec![2], [2u8; 16], &NodeRegistryType::Sentinel, 0));
    assert!(reg.type_is_maxed_out(&NodeRegistryType::Sentinel));
    assert!(!reg.register_peer(vec![3], [3u8; 16], &NodeRegistryType::Sentinel, 0));
    assert!(reg.register_peer(vec![1], [1u8; 16], &NodeRegistryType::Sentinel, 0));
}

#[test]
fn admission_never_exceeds_capacity() {
    let cap = 3usize;
    let mut reg = registry_with_capacity(&[(NodeRegistryType::Sentinel, cap)]);
    let mut accepted = 0;
    for _ in 0..8 {
        let id = NodeIdentity::generate_in_memory();
        let types = vec![NodeRegistryType::Sentinel];
        let request = signed_request(&id, NodeRequestType::Register, NodeRegistryType::Sentinel, types);
        let reply = reg.handle_register(&request, 0);
        if reply.accepted {
            accepted += 1;
            assert!(reply.reason.is_empty());
        } else {
            assert!(!reply.reason.is_empty());
        }
    }
    assert_eq!(accepted, cap);
    assert_eq!(reg.node_count(&NodeRegistryType::Sentinel), cap);
}

#[test]
fn unproven_registrations_are_refused() {
    let mut reg = registry_with_capacity(&[(NodeRegistryType::Sentinel, 5)]);
    let reply = reg.handle_register(&register_request(vec![NodeRegistryType::Sentinel]), 0);
    assert!(!reply.accepted);
    assert_eq!(reply.peer_rhash, [0u8; 16]);
    assert_eq!(reply.node_type, NodeRegistryType::Committer);
    assert_eq!(reg.node_count(&NodeRegistryType::Sentinel), 0);
    let ack = reg.reply_register_ack(&reply);
    assert!(matches!(ack.request_type, NodeRequestType::RegisterAck { accepted: false, .. }));
}

#[test]
fn stake_answers_decide_the_roles() {
    let mut reg = registry_with_capacity(&[(NodeRegistryType::Executor, 5), (NodeRegistryType::Sentinel, 5)]);
    let id = NodeIdentity::generate_in_memory();
    let types = vec![NodeRegistryType::Executor, NodeRegistryType::Sentinel];
    let request = signed_request(&id, NodeRequestType::Register, NodeRegistryType::Executor, types);
    let answers = GateAnswers { finalizer: true, executor: false, sentinel: true, committer: true };
    let reply = reg.register_with(&request, answers, 5);
    assert!(reply.accepted);
    assert_eq!(reply.node_type, NodeRegistryType::Sentinel);
    let key = id.ed25519.public_key().unwrap();
    assert_eq!(reg.find_node_types_by_public_key(&key), vec![NodeRegistryType::Sentinel]);
    assert_eq!(reg.get_nodes(&NodeRegistryType::Sentinel).get(&key).unwrap().last_seen_millis, 5);
}

#[test]
fn unstaked_registrations_are_refused() {
    let refuse = |_key: &[u8], _role: &NodeRegistryType| false;
    let mut reg = NodeRegistry::init(config_with(&[(NodeRegistryType::Sentinel, 5)]), refuse);
    let id = NodeIdentity::generate_in_memory();
    let types = vec![NodeRegistryType::Sentinel];
    let request = signed_request(&id, NodeRequestType::Register, NodeRegistryType::Sentinel, types);
    assert!(!reg.handle_register(&request, 0).accepted);
    assert!(reg.find_node_types_by_public_key(&request.requester_key).is_empty());
}

#[test]
fn directory_response_registers_valid_entries() {
    let mut reg = registry_with_capacity(&[(NodeRegistryType::Finalizer, 5)]);
    let responder = NodeIdentity::generate_in_memory();
    register_node(&mut reg, &responder, NodeRegistryType::Finalizer);
    let listed = NodeIdentity::generate_in_memory();
    let entries = vec![valid_entry(&listed, NodeRegistryType::Finalizer)];
    let signature = envelope_signature(&responder, &entries, &NodeRegistryType::Finalizer, responder.rhash);
    let response = response_from(&responder, NodeRegistryType::Finalizer, entries, signature);
    reg.handle_directory_response(&response, 0).unwrap();
    assert!(reg
        .get_nodes(&NodeRegistryType::Finalizer)
        .contains_key(&listed.ed25519.public_key().unwrap()));
}

#[test]
fn directory_response_rejects_invalid_signature() {
    let mut reg = registry_with_capacity(&[(NodeRegistryType::Finalizer, 5)]);
    let responder = NodeIdentity::generate_in_memory();
    register_node(&mut reg, &responder, NodeRegistryType::Finalizer);
    let entries = vec![valid_entry(&responder, NodeRegistryType::Finalizer)];
    let bad_payload = directory_response_signature_payload(&entries, &NodeRegistryType::Finalizer, &[1u8; 16]);
    let bad_signature = responder.sign_message(&bad_payload).unwrap();
    let response = response_from(&responder, NodeRegistryType::Finalizer, entries, bad_signature);
    assert!(
        reg.handle_directory_response(&response, 0).is_err(),
        "a signature that does not cover (entries, type, responder_rhash) must be rejected"
    );
}

#[test]
fn directory_response_rejects_unregistered_responder() {
    let mut reg = registry_with_capacity(&[(NodeRegistryType::Finalizer, 5)]);
    let attacker = NodeIdentity::generate_in_memory();
    let listed = NodeIdentity::generate_in_memory();
    let entries = vec![valid_entry(&listed, NodeRegistryType::Finalizer)];
    let signature = envelope_signature(&attacker, &entries, &NodeRegistryType::Finalizer, attacker.rhash);
    let response = response_from(&attacker, NodeRegistryType::Finalizer, entries, signature);
    assert!(
        reg.handle_directory_response(&response, 0).is_err(),
        "a directory response from an unregistered responder must be rejected"
    );
}

fn entry_with_foreign_rhash(victim: &NodeIdentity, rhash: [u8; 16]) -> NodeRegistryEntry {
    NodeRegistryEntry { node_rhash: rhash, ..valid_entry(victim, NodeRegistryType::Finalizer) }
}

#[test]
fn directory_response_rejects_real_key_attacker_rhash() {
    let mut reg = registry_with_capacity(&[(NodeRegistryType::Finalizer, 5)]);
    let responder = NodeIdentity::generate_in_memory();
    register_node(&mut reg, &responder, NodeRegistryType::Finalizer);
    let victim = NodeIdentity::generate_in_memory();
    let attacker_rhash = [9u8; 16];
    let entries = vec![entry_with_foreign_rhash(&victim, attacker_rhash)];
    let signature = envelope_signature(&responder, &entries, &NodeRegistryType::Finalizer, responder.rhash);
    let response = response_from(&responder, NodeRegistryType::Finalizer, entries, signature);
    assert!(
        reg.handle_directory_response(&response, 0).is_err(),
        "an entry claiming attacker_rhash under a real key must be rejected"
    );
}

#[test]
fn directory_response_poisoned_cannot_change_registered_rhash() {
    let mut reg = registry_with_capacity(&[(NodeRegistryType::Finalizer, 5)]);
    let responder = NodeIdentity::generate_in_memory();
    register_node(&mut reg, &responder, NodeRegistryType::Finalizer);
    let victim = NodeIdentity::generate_in_memory();
    let real_rhash = victim.rhash;
    register_node(&mut reg, &victim, NodeRegistryType::Finalizer);
    let attacker_rhash = [9u8; 16];
    let entries = vec![entry_with_foreign_rhash(&victim, attacker_rhash)];
    let signature = envelope_signature(&responder, &entries, &NodeRegistryType::Finalizer, responder.rhash);
    let response = response_from(&responder, NodeRegistryType::Finalizer, entries, signature);
    assert!(reg.handle_directory_response(&response, 0).is_err());
    let stored = reg
        .get_nodes(&NodeRegistryType::Finalizer)
        .get(&victim.ed25519.public_key().unwrap())
        .expect("victim still registered");
    assert_eq!(
        stored.rhash, real_rhash,
        "a rejected poisoned response must not alter an established rhash"
    );
}

#[test]
fn register_directory_peer_refresh_only() {
    let mut reg = registry_with_capacity(&[(NodeRegistryType::Finalizer, 5)]);
    let victim = NodeIdentity::generate_in_memory();
    register_node(&mut reg, &victim, NodeRegistryType::Finalizer);
    let real_rhash = victim.rhash;
    let key = victim.ed25519.public_key().unwrap();
    let attacker_rhash = [9u8; 16];
    assert!(reg.register_directory_peer(key.clone(), attacker_rhash, &NodeRegistryType::Finalizer, 100_000));
    let stored = reg.get_nodes(&NodeRegistryType::Finalizer).get(&key).expect("victim still registered");
    assert_eq!(stored.rhash, real_rhash, "register_directory_peer must never overwrite rhash");
    assert_eq!(stored.last_seen_millis, 100_000, "register_directory_peer should refresh liveness");
}

#[test]
fn directory_response_rejects_tampered_registry_type() {
    let mut reg = registry_with_capacity(&[(NodeRegistryType::Finalizer, 5)]);
    let responder = NodeIdentity::generate_in_memory();
    register_node(&mut reg, &responder, NodeRegistryType::Finalizer);
    let entries = vec![valid_entry(&responder, NodeRegistryType::Finalizer)];
    let signature = envelope_signature(&responder, &entries, &NodeRegistryType::Finalizer, responder.rhash);
    let response = response_from(&responder, NodeRegistryType::Executor, entries, signature);
    assert!(matches!(
        reg.handle_directory_response(&response, 0),
        Err(PneumaticError::Registry(_))
    ));
}

#[test]
fn acknowledgements_are_taken_in_by_the_requester() {
    let mut responder = registry_with_capacity(&[(NodeRegistryType::Finalizer, 5)]);
    let requester_identity = NodeIdentity::generate_in_memory();
    let register = signed_request(
        &requester_identity,
        NodeRequestType::Register,
        NodeRegistryType::Finalizer,
        vec![NodeRegistryType::Finalizer],
    );
    let ack = match responder.handle_control(&register, 0).unwrap() {
        ControlOutcome::Acknowledge { ack, .. } => ack,
        other => panic!("expected Acknowledge, got {:?}", other),
    };
    let mut requester = registry_with_capacity(&[(NodeRegistryType::Finalizer, 5)]);
    match requester.handle_control(&ack, 3).unwrap() {
        ControlOutcome::Acknowledged(outcome) => assert_eq!(outcome, AckOutcome::Stored),
        other => panic!("expected Acknowledged, got {:?}", other),
    }
    let stored = requester
        .get_nodes(&NodeRegistryType::Finalizer)
        .get(&responder.get_config().public_key)
        .expect("the responder is in the directory");
    assert_eq!(stored.rhash, responder.get_config().rhash);
}

#[test]
fn directories_round_trip_between_registries() {
    let mut sender = registry_with_capacity(&[(NodeRegistryType::Finalizer, 5)]);
    let listed = NodeIdentity::generate_in_memory();
    register_node(&mut sender, &listed, NodeRegistryType::Finalizer);
    let unsigned = sender.register_peer(vec![8], [8; 16], &NodeRegistryType::Finalizer, 0);
    assert!(unsigned);
    // Only nodes that registered with a binding of their own are listed.
    assert_eq!(sender.directory_entries(&NodeRegistryType::Finalizer).len(), 1);
    let response = sender.directory_response(NodeRegistryType::Finalizer);
    let mut receiver = registry_with_capacity(&[(NodeRegistryType::Finalizer, 5)]);
    assert!(receiver.handle_directory_response(&response, 0).is_err());
    receiver.register_peer(response.responder_key.clone(), response.responder_rhash, &NodeRegistryType::Finalizer, 0);
    receiver.handle_directory_response(&response, 7).unwrap();
    let key = listed.ed25519.public_key().unwrap();
    let stored = receiver.get_nodes(&NodeRegistryType::Finalizer).get(&key).unwrap();
    assert_eq!(stored.rhash, listed.rhash);
    assert_eq!(stored.last_seen_millis, 7);
}

#[test]
fn forged_heartbeat_does_not_refresh_last_seen() {
    let mut reg = registry_with_capacity(&[(NodeRegistryType::Finalizer, 5)]);
    let victim = NodeIdentity::generate_in_memory();
    register_node(&mut reg, &victim, NodeRegistryType::Finalizer);
    let key = victim.ed25519.public_key().unwrap();
    let forged = NodeRequest {
        requester_key: key.clone(),
        requester_rhash: victim.rhash,
        request_type: NodeRequestType::Heartbeat,
        requester_types: vec![NodeRegistryType::Finalizer],
        requested_type: NodeRegistryType::Finalizer,
        binding_signature: vec![0u8; 32],
    };
    reg.handle_heartbeat(&forged, 100_000);
    let stored = reg.get_nodes(&NodeRegistryType::Finalizer).get(&key).expect("victim still registered");
    assert_eq!(stored.last_seen_millis, 0, "a forged heartbeat must not refresh last_seen");
}

#[test]
fn authenticated_heartbeat_refreshes_last_seen() {
    let mut reg = registry_with_capacity(&[(NodeRegistryType::Finalizer, 5)]);
    let victim = NodeIdentity::generate_in_memory();
    register_node(&mut reg, &victim, NodeRegistryType::Finalizer);
    let key = victim.ed25519.public_key().unwrap();
    let req = signed_request(
        &victim,
        NodeRequestType::Heartbeat,
        NodeRegistryType::Finalizer,
        vec![NodeRegistryType::Finalizer],
    );
    reg.handle_heartbeat(&req, 100_000);
    let stored = reg.get_nodes(&NodeRegistryType::Finalizer).get(&key).expect("victim still registered");
    assert_eq!(stored.last_seen_millis, 100_000, "a properly-signed heartbeat must refresh last_seen");
}

#[test]
fn heartbeat_binding_is_tuple_specific() {
    let mut reg = registry_with_capacity(&[(NodeRegistryType::Finalizer, 5)]);
    let victim = NodeIdentity::generate_in_memory();
    register_node(&mut reg, &victim, NodeRegistryType::Finalizer);
    let key = victim.ed25519.public_key().unwrap();
    let mut req = signed_request(
        &victim,
        NodeRequestType::Heartbeat,
        NodeRegistryType::Finalizer,
        vec![NodeRegistryType::Finalizer],
    );
    req.requester_rhash = [9u8; 16];
    reg.handle_heartbeat(&req, 100_000);
    let stored = reg.get_nodes(&NodeRegistryType::Finalizer).get(&key).expect("victim still registered");
    assert_eq!(stored.last_seen_millis, 0, "a signature over a different rhash must not refresh last_seen");
}

#[test]
fn evictor_removes_expired_nodes() {
    let mut reg = registry_with_capacity(&[(NodeRegistryType::Committer, 5)]);
    let identity = NodeIdentity::generate_in_memory();
    register_node(&mut reg, &identity, NodeRegistryType::Committer);
    let key = identity.ed25519.public_key().unwrap();
    reg.register_peer(vec![2], [2; 16], &NodeRegistryType::Committer, 10_000);
    reg.evict_expired(40_000);
    assert!(!reg.get_nodes(&NodeRegistryType::Committer).contains_key(&key));
    // Exactly at the cutoff a node stays.
    assert!(reg.node_is_already_registered(&[2], &NodeRegistryType::Committer));
    reg.evict_expired(40_001);
    assert!(!reg.node_is_already_registered(&[2], &NodeRegistryType::Committer));
}

/// One fan-out: each peer's send ends as given, in the order of the peers.
fn fan_out<S: Fn(&[u8], &NodeRegistryType) -> bool>(
    reg: &mut NodeRegistry<S>,
    role: NodeRegistryType,
    ends: Vec<SendEnd<Result<(), ConnError>>>,
) {
    let ends = Mutex::new(ends);
    reg.send_to_all_blocking(&[1, 2, 3], &role, |_key: &[u8], _rhash: &[u8; 16], _data: &[u8]| {
        direct_failure(ends.lock().unwrap().remove(0), "5s")
    });
    assert!(ends.lock().unwrap().is_empty());
}

fn failing() -> SendEnd<Result<(), ConnError>> {
    SendEnd::Finished(Err(ConnError::IO("FailingConnection.send".into())))
}

#[test]
fn direct_delivery_failure_is_recorded() {
    let mut reg = registry_with_capacity(&[(NodeRegistryType::Finalizer, 5)]);
    for (i, rhash) in [(1u8, [1u8; 16]), (2, [2u8; 16]), (3, [3u8; 16])] {
        reg.register_peer(vec![i], rhash, &NodeRegistryType::Finalizer, 0);
    }
    fan_out(&mut reg, NodeRegistryType::Finalizer, vec![failing(), failing(), failing()]);
    assert_eq!(reg.total_delivery_failures(), 3);
    for rhash in [[1u8; 16], [2u8; 16], [3u8; 16]] {
        assert_eq!(
            reg.failure_count(rhash, &NodeRegistryType::Finalizer),
            1,
            "each peer must record exactly one failure"
        );
    }
}

#[test]
fn send_to_all_includes_self() {
    let mut reg = registry_with_capacity(&[(NodeRegistryType::Committer, 5)]);
    let own_key = reg.get_config().public_key.clone();
    reg.register_peer(own_key.clone(), [7u8; 16], &NodeRegistryType::Committer, 0);
    assert_eq!(
        reg.peers(&NodeRegistryType::Committer),
        vec![(own_key, [7u8; 16])],
        "the fan-out must not skip the node's own connection"
    );
}

#[test]
fn blocking_direct_actually_sends_data() {
    let mut reg = registry_with_capacity(&[(NodeRegistryType::Finalizer, 5)]);
    reg.register_peer(vec![1], [1u8; 16], &NodeRegistryType::Finalizer, 0);
    reg.register_peer(vec![2], [2u8; 16], &NodeRegistryType::Finalizer, 0);
    reg.register_peer(vec![3], [3u8; 16], &NodeRegistryType::Committer, 0);
    let sent: Mutex<Vec<(Vec<u8>, [u8; 16], Vec<u8>)>> = Mutex::new(vec![]);
    reg.send_to_all_blocking(
        &[9, 8, 7],
        &NodeRegistryType::Finalizer,
        |key: &[u8], rhash: &[u8; 16], data: &[u8]| {
            sent.lock().unwrap().push((key.to_vec(), *rhash, data.to_vec()));
            None
        },
    );
    let mut sent = sent.into_inner().unwrap();
    sent.sort();
    assert_eq!(
        sent,
        vec![
            (vec![1], [1u8; 16], vec![9, 8, 7]),
            (vec![2], [2u8; 16], vec![9, 8, 7]),
        ]
    );
    assert_eq!(reg.total_delivery_failures(), 0);
}

#[test]
fn failures_of_one_broadcast_add_up() {
    let mut reg = registry_with_capacity(&[]);
    let ft = NodeRegistryType::Finalizer;
    reg.record_delivery_failures(&vec![[1u8; 16], [2u8; 16], [1u8; 16]], &ft);
    assert_eq!(reg.failure_count([1u8; 16], &ft), 2);
    assert_eq!(reg.failure_count([2u8; 16], &ft), 1);
    assert_eq!(reg.total_delivery_failures(), 3);
}

#[test]
fn blocking_direct_delivery_failure_is_recorded() {
    let mut reg = registry_with_capacity(&[(NodeRegistryType::Finalizer, 5)]);
    reg.register_peer(vec![1], [1u8; 16], &NodeRegistryType::Finalizer, 0);
    fan_out(&mut reg, NodeRegistryType::Finalizer, vec![failing()]);
    assert_eq!(
        reg.failure_count([1u8; 16], &NodeRegistryType::Finalizer),
        1,
        "blocking direct branch must record the failure"
    );
}

#[test]
fn direct_send_timeout_is_recorded_as_failure() {
    let mut reg = registry_with_capacity(&[(NodeRegistryType::Finalizer, 5)]);
    reg.register_peer(vec![1], [1u8; 16], &NodeRegistryType::Finalizer, 0);
    reg.register_peer(vec![2], [2u8; 16], &NodeRegistryType::Finalizer, 0);
    fan_out(&mut reg, NodeRegistryType::Finalizer, vec![failing(), SendEnd::TimedOut]);
    assert_eq!(
        reg.failure_count([1u8; 16], &NodeRegistryType::Finalizer),
        1,
        "immediate send error must be recorded"
    );
    assert_eq!(
        reg.failure_count([2u8; 16], &NodeRegistryType::Finalizer),
        1,
        "elapsed timeout must be recorded"
    );
}

#[test]
fn successful_delivery_records_no_failure() {
    let mut reg = registry_with_capacity(&[(NodeRegistryType::Finalizer, 5)]);
    for (i, rhash) in [(1u8, [1u8; 16]), (2, [2u8; 16])] {
        reg.register_peer(vec![i], rhash, &NodeRegistryType::Finalizer, 0);
    }
    fan_out(
        &mut reg,
        NodeRegistryType::Finalizer,
        vec![SendEnd::Finished(Ok(())), SendEnd::Finished(Ok(()))],
    );
    assert_eq!(reg.total_delivery_failures(), 0, "successful deliveries must not record failures");
}

#[test]
fn record_delivery_failure_counts_by_rhash_and_type() {
    let mut reg = registry_with_capacity(&[]);
    let ft = NodeRegistryType::Finalizer;
    reg.record_delivery_failure([1u8; 16], &ft);
    reg.record_delivery_failure([1u8; 16], &ft);
    reg.record_delivery_failure([2u8; 16], &ft);
    assert_eq!(reg.failure_count([1u8; 16], &ft), 2);
    assert_eq!(reg.failure_count([2u8; 16], &ft), 1);
    assert_eq!(reg.failure_count([1u8; 16], &NodeRegistryType::Executor), 0);
    assert_eq!(reg.total_delivery_failures(), 3, "total must be the sum across keys");
}

#[test]
fn bounded_sends_end_in_their_outcome() {
    assert_eq!(bounded_outcome(SendEnd::Finished(vec![1u8, 2, 3]), "10s").unwrap(), vec![1u8, 2, 3]);
    assert!(matches!(bounded_outcome::<u8>(SendEnd::TimedOut, "100ms"), Err(ConnError::Timeout(m)) if m.contains("100ms")));
    assert!(matches!(bounded_outcome::<u8>(SendEnd::WorkerGone, "100ms"), Err(ConnError::IO(_))));
    assert!(matches!(
        bounded_outcome::<u8>(SendEnd::WorkerPanicked, "100ms"),
        Err(ConnError::IO(m)) if m == "send worker panicked before producing a result"
    ));
}

#[test]
fn refused_transport_sends_are_failures() {
    assert!(transport_failure(bounded_outcome(SendEnd::Finished(Ok(())), "5s")).is_none());
    let refused = bounded_outcome(SendEnd::Finished(Err(ConnError::IO("no route".into()))), "5s");
    assert!(matches!(transport_failure(refused), Some(ConnError::IO(m)) if m == "no route"));
    let late = bounded_outcome(SendEnd::TimedOut, "5s");
    assert!(matches!(transport_failure(late), Some(ConnError::Timeout(m)) if m == "blocking send exceeded 5s"));
}

#[test]
fn refused_transport_sends_are_counted() {
    let mut reg = registry_with_capacity(&[(NodeRegistryType::Finalizer, 5)]);
    assert_eq!(reg.total_delivery_failures(), 0);
    for (i, rhash) in [(1u8, [1u8; 16]), (2, [2u8; 16])] {
        reg.register_peer(vec![i], rhash, &NodeRegistryType::Finalizer, 0);
    }
    assert_eq!(reg.total_delivery_failures(), 0);
    reg.send_to_all_blocking(b"x", &NodeRegistryType::Finalizer, |_key: &[u8], rhash: &[u8; 16], _data: &[u8]| {
        let result = if rhash[0] == 1 { Err(ConnError::IO("no route".into())) } else { Ok(()) };
        transport_failure(bounded_outcome(SendEnd::Finished(result), "5s"))
    });
    assert_eq!(reg.failure_count([1; 16], &NodeRegistryType::Finalizer), 1);
    assert_eq!(reg.failure_count([2; 16], &NodeRegistryType::Finalizer), 0);
    assert_eq!(reg.total_delivery_failures(), 1);
}

#[test]
fn control_messages_reach_their_handlers() {
    let mut reg = registry_with_capacity(&[(NodeRegistryType::Sentinel, 5)]);
    let id = NodeIdentity::generate_in_memory();
    let types = vec![NodeRegistryType::Sentinel];
    let register = signed_request(&id, NodeRequestType::Register, NodeRegistryType::Sentinel, types.clone());
    match reg.handle_control(&register, 1).unwrap() {
        ControlOutcome::Acknowledge { peer_rhash, ack } => {
            assert_eq!(peer_rhash, id.rhash);
            match ack.request_type {
                NodeRequestType::RegisterAck { accepted, node_type, responder_key, .. } => {
                    assert!(accepted);
                    assert_eq!(node_type, NodeRegistryType::Sentinel);
                    assert_eq!(responder_key, reg.get_config().public_key);
                }
                other => panic!("expected RegisterAck, got {:?}", other),
            }
        }
        other => panic!("expected Acknowledge, got {:?}", other),
    }
    let heartbeat = signed_request(&id, NodeRequestType::Heartbeat, NodeRegistryType::Sentinel, types.clone());
    assert!(matches!(reg.handle_control(&heartbeat, 9).unwrap(), ControlOutcome::Heard));
    let key = id.ed25519.public_key().unwrap();
    assert_eq!(reg.get_nodes(&NodeRegistryType::Sentinel).get(&key).unwrap().last_seen_millis, 9);
    let request = signed_request(&id, NodeRequestType::Request, NodeRegistryType::Sentinel, types);
    match reg.handle_control(&request, 9).unwrap() {
        ControlOutcome::Respond { peer_rhash, response, .. } => {
            assert_eq!(peer_rhash, id.rhash);
            assert_eq!(response.entries.len(), 1);
            assert_eq!(response.entries[0].node_key, key);
        }
        other => panic!("expected Respond, got {:?}", other),
    }
}

#[test]
fn acknowledgements_store_proven_peers() {
    let mut reg = registry_with_capacity(&[(NodeRegistryType::Finalizer, 1)]);
    let peer = NodeIdentity::generate_in_memory();
    let key = peer.ed25519.public_key().unwrap();
    let role = NodeRegistryType::Finalizer;
    let ack = signed_request(&peer, NodeRequestType::Heartbeat, role, vec![role]);
    assert!(matches!(reg.handle_register_ack(&ack, false, role, &key, 0), AckOutcome::Rejected));
    assert!(matches!(reg.handle_register_ack(&ack, true, role, &[], 0), AckOutcome::MissingKey));
    assert!(matches!(reg.handle_register_ack(&ack, true, role, &[1, 2], 0), AckOutcome::BadBinding));
    assert!(matches!(reg.handle_register_ack(&ack, true, role, &key, 0), AckOutcome::Stored));
    assert!(reg.node_is_already_registered(&key, &role));
    let other = NodeIdentity::generate_in_memory();
    let other_key = other.ed25519.public_key().unwrap();
    let late = signed_request(&other, NodeRequestType::Heartbeat, role, vec![role]);
    assert!(matches!(reg.handle_register_ack(&late, true, role, &other_key, 0), AckOutcome::Full));
}
