use pneumatic_core::auth::{authenticate_envelope, judge_envelope, EnvelopeAuthError};
use pneumatic_core::config::{Config, TypeConfigs};
use pneumatic_core::crypto::AsymCryptoProvider;
use pneumatic_core::errors::PneumaticError;
use pneumatic_core::keyed_store::KeyedStore;
use pneumatic_core::node::registry::NodeRegistry;
use pneumatic_core::node::{NodeRegistryType, NodeRequest, NodeRequestType, NodeTypeConfig};
use pneumatic_core::rns::identity::NodeIdentity;
use std::sync::Arc;

type Registry = NodeRegistry<fn(&[u8], &NodeRegistryType) -> bool>;

fn allow_all(_key: &[u8], _role: &NodeRegistryType) -> bool {
    true
}

fn registry_with(types: &[(NodeRegistryType, usize)]) -> Registry {
    let mut type_configs = TypeConfigs::new();
    for (t, max) in types {
        type_configs.insert(*t, NodeTypeConfig { min: 0, max: *max, min_stake: 0 });
    }
    let config = Config::new_for_testing("test_env".to_string(), KeyedStore::new(), type_configs);
    NodeRegistry::init(Arc::new(config), allow_all)
}

fn register(
    reg: &mut Registry,
    identity: &NodeIdentity,
    requested_type: NodeRegistryType,
    types: Vec<NodeRegistryType>,
) -> Vec<u8> {
    let key = identity.ed25519.public_key().unwrap();
    let binding = identity.sign_binding(&identity.rhash, &requested_type, &types).expect("sign binding");
    let request = NodeRequest {
        requester_key: key.clone(),
        requester_rhash: identity.rhash,
        request_type: NodeRequestType::Register,
        requester_types: types,
        requested_type,
        binding_signature: binding,
    };
    reg.handle_register(&request, 0);
    key
}

fn signed_body(identity: &NodeIdentity, body: &[u8]) -> Vec<u8> {
    identity.sign_message(body).expect("sign body")
}

#[test]
fn authenticates_registered_signer_and_returns_its_roles() {
    let mut reg = registry_with(&[(NodeRegistryType::Executor, 5)]);
    let identity = NodeIdentity::generate_in_memory();
    let key = register(&mut reg, &identity, NodeRegistryType::Executor, vec![NodeRegistryType::Executor]);
    let body = b"vote-payload";
    let sig = signed_body(&identity, body);
    let roles = authenticate_envelope(&identity.ed25519, &reg, &sig, &key, body).expect("authenticates");
    assert_eq!(roles, vec![NodeRegistryType::Executor]);
}

#[test]
fn composite_identity_resolves_its_full_role_set() {
    let mut reg = registry_with(&[(NodeRegistryType::Executor, 5), (NodeRegistryType::Finalizer, 5)]);
    let identity = NodeIdentity::generate_in_memory();
    let key = register(
        &mut reg,
        &identity,
        NodeRegistryType::Executor,
        vec![NodeRegistryType::Executor, NodeRegistryType::Finalizer],
    );
    let body = b"vote-payload";
    let sig = signed_body(&identity, body);
    let roles = authenticate_envelope(&identity.ed25519, &reg, &sig, &key, body).expect("authenticates");
    assert!(roles.contains(&NodeRegistryType::Executor));
    assert!(roles.contains(&NodeRegistryType::Finalizer));
}

#[test]
fn tampered_body_fails_closed_with_a_clean_mismatch() {
    let mut reg = registry_with(&[(NodeRegistryType::Executor, 5)]);
    let identity = NodeIdentity::generate_in_memory();
    let key = register(&mut reg, &identity, NodeRegistryType::Executor, vec![NodeRegistryType::Executor]);
    let sig = signed_body(&identity, b"original-body");
    let err = authenticate_envelope(&identity.ed25519, &reg, &sig, &key, b"tampered-body")
        .expect_err("tampered body must fail");
    assert_eq!(err, EnvelopeAuthError::Signature { public_key: key, reason: None });
}

#[test]
fn signature_claimed_under_a_different_key_fails_closed() {
    let mut reg = registry_with(&[(NodeRegistryType::Executor, 5)]);
    let signer = NodeIdentity::generate_in_memory();
    let victim = NodeIdentity::generate_in_memory();
    let victim_key = register(&mut reg, &victim, NodeRegistryType::Executor, vec![NodeRegistryType::Executor]);
    let body = b"vote-payload";
    let sig = signed_body(&signer, body);
    let err = authenticate_envelope(&victim.ed25519, &reg, &sig, &victim_key, body).expect_err("forgery must fail");
    assert!(matches!(err, EnvelopeAuthError::Signature { .. }));
}

#[test]
fn valid_envelope_from_an_unregistered_key_is_unregistered() {
    let reg = registry_with(&[(NodeRegistryType::Executor, 5)]);
    let stranger = NodeIdentity::generate_in_memory();
    let key = stranger.ed25519.public_key().unwrap();
    let body = b"vote-payload";
    let sig = signed_body(&stranger, body);
    let err = authenticate_envelope(&stranger.ed25519, &reg, &sig, &key, body).expect_err("unregistered must fail");
    assert_eq!(err, EnvelopeAuthError::Unregistered { public_key: key });
}

#[test]
fn provider_errors_give_their_reason() {
    let verdict = judge_envelope(
        Err(PneumaticError::CryptoError("broken".to_string())),
        &[1],
        vec![NodeRegistryType::Executor],
    );
    assert_eq!(
        verdict,
        Err(EnvelopeAuthError::Signature {
            public_key: vec![1],
            reason: Some("CryptoError(broken)".to_string())
        })
    );
}
