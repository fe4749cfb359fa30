use pneumatic_core::crypto::{AsymCryptoProvider, Ed25519Provider, ED25519_SIG_LEN};
use pneumatic_core::epoch::StakeSet;
use pneumatic_core::messages::{acknowledge, Message, MessageBody};
use pneumatic_core::rns::identity::NodeIdentity;

fn verify(message: &Message, expected_public_key: &[u8]) -> bool {
    Ed25519Provider::generate()
        .check_signature(&message.signature, expected_public_key, &message.body)
        .unwrap_or(false)
}

#[test]
fn signed_message_verifies_under_identity_key() {
    let identity = NodeIdentity::generate_in_memory();
    let body = vec![1, 2, 3, 4];
    let msg = Message::signed("env".into(), "Process", body.clone(), None, &identity).unwrap();
    let public_key = identity.ed25519.public_key().unwrap();
    assert_eq!(msg.public_key, public_key);
    assert!(!msg.signature.is_empty());
    assert!(verify(&msg, &public_key));
    assert_eq!(msg.body, body);
    assert_eq!(msg.action, "Process");
    assert_eq!(msg.chain_id, "env");
}

#[test]
fn signed_message_ed25519_half_is_deterministic() {
    let identity = NodeIdentity::generate_in_memory();
    let body = vec![9, 8, 7];
    let a = Message::signed("env".into(), "Process", body.clone(), None, &identity).unwrap();
    let b = Message::signed("env".into(), "Process", body, None, &identity).unwrap();
    assert!(verify(&a, &identity.ed25519.public_key().unwrap()));
    assert!(verify(&b, &identity.ed25519.public_key().unwrap()));
    assert_eq!(&a.signature[..ED25519_SIG_LEN], &b.signature[..ED25519_SIG_LEN]);
}

#[test]
fn signed_message_differs_across_identities() {
    let a = NodeIdentity::generate_in_memory();
    let b = NodeIdentity::generate_in_memory();
    let body = vec![1, 1, 1];
    let ma = Message::signed("env".into(), "Process", body.clone(), None, &a).unwrap();
    let mb = Message::signed("env".into(), "Process", body, None, &b).unwrap();
    assert_ne!(ma.signature, mb.signature);
    let pb = b.ed25519.public_key().unwrap();
    assert!(!verify(&ma, &pb));
}

#[test]
fn signed_message_rejects_tampered_body() {
    let identity = NodeIdentity::generate_in_memory();
    let public_key = identity.ed25519.public_key().unwrap();
    let mut msg = Message::signed("env".into(), "Process", vec![5, 5, 5], None, &identity).unwrap();
    msg.body.push(6);
    assert!(!verify(&msg, &public_key));
}

#[test]
fn signed_message_preserves_stake_set() {
    let identity = NodeIdentity::generate_in_memory();
    let mut stakes = StakeSet::default();
    stakes.stakers.insert(vec![1u8], 100);
    let stake_set = Some(stakes);
    let msg = Message::signed("env".into(), "BlockFinalized", vec![1], stake_set.clone(), &identity).unwrap();
    assert!(msg.stake_set.is_some());
    assert!(verify(&msg, &identity.ed25519.public_key().unwrap()));
    assert_eq!(msg.clone().stake_set.unwrap().get_stake(&[1]), 100);
}

#[test]
fn acknowledgements_and_bodies() {
    assert_eq!(acknowledge(), vec![0xa3, 0x61, 0x63, 0x6b]);
    let body = MessageBody { action: "ProcessTransaction".to_string(), body: 7u8 };
    let copy = body.clone();
    assert_eq!(copy.action, "ProcessTransaction");
    assert_eq!(copy.body, 7);
}
