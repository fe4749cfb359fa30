use pneumatic_core::config::{Config, TypeConfigs};
use pneumatic_core::conns::senders::Sender;
use pneumatic_core::conns::ConnError;
use pneumatic_core::crypto::{AsymCryptoProvider, Ed25519Provider};
use pneumatic_core::data::DataError;
use pneumatic_core::errors::PneumaticError;
use pneumatic_core::gossiper::{dedup_key, judge_message, Gossiper};
use pneumatic_core::keyed_store::KeyedStore;
use pneumatic_core::messages::Message;
use pneumatic_core::node::registry::NodeRegistry;
use pneumatic_core::node::{NodeRegistryNode, NodeRegistryType, NodeTypeConfig};
use pneumatic_core::rns::identity::NodeIdentity;
use std::sync::atomic::{AtomicUsize, Ordering};
use std::sync::{Arc, Mutex};

type Handler = Box<dyn Fn(Vec<u8>) + Send + Sync>;
type TestGossiper = Gossiper<Ed25519Provider, Handler>;

fn make_test_config() -> Arc<Config> {
    Arc::new(Config::new_for_testing("test".to_string(), KeyedStore::new(), TypeConfigs::new()))
}

fn make_gossiper_with_provider() -> (TestGossiper, Ed25519Provider) {
    let provider = Ed25519Provider::generate();
    let gossiper = Gossiper::new(
        NodeRegistryType::Sentinel,
        make_test_config(),
        300,
        Ed25519Provider::generate(),
    );
    (gossiper, provider)
}

fn make_signed_message(provider: &Ed25519Provider, chain_id: &str, action: &str, body: Vec<u8>) -> Message {
    let pk = provider.public_key().unwrap();
    let sig = provider.sign_data(&body).unwrap();
    Message {
        chain_id: chain_id.to_string(),
        action: action.to_string(),
        body,
        signature: sig,
        public_key: pk,
        stake_set: None,
    }
}

/// The bytes that stand for an encoded message.
fn raw_of(message: &Message) -> Vec<u8> {
    let fields = (&message.chain_id, &message.action, &message.body, &message.signature, &message.public_key);
    rmp_serde::to_vec(&fields).unwrap()
}

fn handle(gossiper: &mut TestGossiper, message: &Message) -> Result<(), DataError> {
    gossiper.handle_message(&raw_of(message), Ok(message.clone()))
}

fn counting(count: &Arc<AtomicUsize>) -> Handler {
    let c = count.clone();
    Box::new(move |_data| {
        c.fetch_add(1, Ordering::SeqCst);
    })
}

#[test]
fn gossiper_accepts_first_message() {
    let (mut gossiper, crypto_provider) = make_gossiper_with_provider();
    let msg = make_signed_message(&crypto_provider, "test", "Process", vec![]);
    assert!(handle(&mut gossiper, &msg).is_ok());
}

#[test]
fn node_identity_signed_message_reaches_handlers() {
    let (mut gossiper, _crypto_provider) = make_gossiper_with_provider();
    let identity = NodeIdentity::generate_in_memory();
    let msg = Message::signed("test".to_string(), "Process", vec![1, 2, 3], None, &identity)
        .expect("Message::signed should succeed");
    let count = Arc::new(AtomicUsize::new(0));
    gossiper.initialize(counting(&count));
    handle(&mut gossiper, &msg).expect("signed message should be accepted");
    assert_eq!(count.load(Ordering::SeqCst), 1);
}

#[test]
fn gossiper_silently_ignores_duplicate() {
    let (mut gossiper, crypto_provider) = make_gossiper_with_provider();
    let msg = make_signed_message(&crypto_provider, "test", "Process", vec![]);
    assert!(handle(&mut gossiper, &msg).is_ok());
    assert!(handle(&mut gossiper, &msg).is_ok());
}

#[test]
fn gossiper_accepts_different_message() {
    let (mut gossiper, crypto_provider) = make_gossiper_with_provider();
    let msg_a = make_signed_message(&crypto_provider, "test", "Process", vec![]);
    let msg_b = make_signed_message(&crypto_provider, "test", "Process", vec![1]);
    assert!(handle(&mut gossiper, &msg_a).is_ok());
    assert!(handle(&mut gossiper, &msg_b).is_ok());
}

#[test]
fn gossiper_cache_max_capacity_is_10000() {
    let (gossiper, _crypto_provider) = make_gossiper_with_provider();
    drop(gossiper);
    assert_eq!(pneumatic_core::gossiper::DEDUP_CAPACITY, 10_000);
}

#[test]
fn fan_out_invokes_all_handlers() {
    let (mut gossiper, crypto_provider) = make_gossiper_with_provider();
    let msg = make_signed_message(&crypto_provider, "test", "Process", vec![1, 2, 3]);
    let handler1_count = Arc::new(AtomicUsize::new(0));
    let handler2_count = Arc::new(AtomicUsize::new(0));
    gossiper.initialize(counting(&handler1_count));
    gossiper.add_handler(counting(&handler2_count));
    handle(&mut gossiper, &msg).unwrap();
    assert_eq!(handler1_count.load(Ordering::SeqCst), 1);
    assert_eq!(handler2_count.load(Ordering::SeqCst), 1);
}

#[test]
fn fan_out_handlers_receive_copy_of_data() {
    let (mut gossiper, crypto_provider) = make_gossiper_with_provider();
    let msg = make_signed_message(&crypto_provider, "broadcast", "Process", vec![42]);
    let raw = raw_of(&msg);
    let received1 = Arc::new(Mutex::new(Vec::<u8>::new()));
    let received2 = Arc::new(Mutex::new(Vec::<u8>::new()));
    let r1 = received1.clone();
    gossiper.initialize(Box::new(move |data: Vec<u8>| {
        r1.lock().unwrap().extend_from_slice(&data);
    }));
    let r2 = received2.clone();
    gossiper.add_handler(Box::new(move |data: Vec<u8>| {
        r2.lock().unwrap().extend_from_slice(&data);
    }));
    gossiper.handle_message(&raw, Ok(msg)).unwrap();
    assert_eq!(*received1.lock().unwrap(), raw);
    assert_eq!(*received2.lock().unwrap(), raw);
    assert_eq!(*received1.lock().unwrap(), *received2.lock().unwrap());
}

#[test]
fn handlers_run_once_each_in_the_order_of_registration() {
    let (mut gossiper, crypto_provider) = make_gossiper_with_provider();
    let log = Arc::new(Mutex::new(Vec::<(usize, Vec<u8>)>::new()));
    for place in 0..3 {
        let log = log.clone();
        gossiper.add_handler(Box::new(move |data: Vec<u8>| log.lock().unwrap().push((place, data))));
    }
    let msg = make_signed_message(&crypto_provider, "test", "Process", vec![1]);
    let mut forged = msg.clone();
    forged.signature[0] ^= 1;
    assert!(matches!(handle(&mut gossiper, &forged), Err(DataError::InvalidSignature)));
    let unreadable = std::io::Error::new(std::io::ErrorKind::InvalidData, "no message");
    assert!(gossiper.handle_message(b"?", Err(unreadable)).is_err());
    assert!(log.lock().unwrap().is_empty());
    handle(&mut gossiper, &msg).unwrap();
    let raw = raw_of(&msg);
    let expected = vec![(0, raw.clone()), (1, raw.clone()), (2, raw)];
    assert_eq!(*log.lock().unwrap(), expected);
    let mut repeated = msg.clone();
    repeated.action = "Sign".to_string();
    handle(&mut gossiper, &repeated).unwrap();
    assert_eq!(*log.lock().unwrap(), expected);
}

#[test]
fn fan_out_dedup_skips_all_handlers() {
    let (mut gossiper, crypto_provider) = make_gossiper_with_provider();
    let msg = make_signed_message(&crypto_provider, "test", "Process", vec![1]);
    let count = Arc::new(AtomicUsize::new(0));
    gossiper.initialize(counting(&count));
    gossiper.add_handler(counting(&count));
    handle(&mut gossiper, &msg).unwrap();
    assert_eq!(count.load(Ordering::SeqCst), 2);
    handle(&mut gossiper, &msg).unwrap();
    assert_eq!(count.load(Ordering::SeqCst), 2);
}

#[test]
fn fan_out_three_handlers_all_called() {
    let (mut gossiper, crypto_provider) = make_gossiper_with_provider();
    let msg = make_signed_message(&crypto_provider, "test", "Process", vec![1, 2]);
    let count = Arc::new(AtomicUsize::new(0));
    gossiper.initialize(counting(&count));
    gossiper.add_handler(counting(&count));
    gossiper.add_handler(counting(&count));
    handle(&mut gossiper, &msg).unwrap();
    assert_eq!(count.load(Ordering::SeqCst), 3);
}

#[test]
fn gossiper_two_senders_same_body_both_pass() {
    let (mut gossiper, _crypto_provider) = make_gossiper_with_provider();
    let sender_a = NodeIdentity::generate_in_memory();
    let sender_b = NodeIdentity::generate_in_memory();
    let body = vec![7, 7, 7, 7];
    let msg_a = Message::signed("env".into(), "Process", body.clone(), None, &sender_a).unwrap();
    let msg_b = Message::signed("env".into(), "Process", body, None, &sender_b).unwrap();
    let count = Arc::new(AtomicUsize::new(0));
    gossiper.initialize(counting(&count));
    handle(&mut gossiper, &msg_a).unwrap();
    handle(&mut gossiper, &msg_b).unwrap();
    assert_eq!(
        count.load(Ordering::SeqCst),
        2,
        "both senders' identical-body messages must reach the handler"
    );
}

#[test]
fn gossiper_content_hash_dedup() {
    let (mut gossiper, crypto_provider) = make_gossiper_with_provider();
    let count = Arc::new(AtomicUsize::new(0));
    gossiper.initialize(counting(&count));
    let msg = make_signed_message(&crypto_provider, "env", "Process", vec![9, 9]);
    handle(&mut gossiper, &msg).unwrap();
    handle(&mut gossiper, &msg).unwrap();
    assert_eq!(
        count.load(Ordering::SeqCst),
        1,
        "identical (key, body) must be deduped to a single handler invocation"
    );
}

#[test]
fn gossiper_forged_signature_not_cached() {
    let (mut gossiper, crypto_provider) = make_gossiper_with_provider();
    let legit = NodeIdentity::generate_in_memory();
    let attacker = NodeIdentity::generate_in_memory();
    let body = vec![3, 1, 4];
    let legit_pub = legit.ed25519.public_key().unwrap();
    let attacker_sig = attacker.sign_message(&body).unwrap();
    let forged = Message {
        chain_id: "env".into(),
        action: "Process".into(),
        body: body.clone(),
        signature: attacker_sig,
        public_key: legit_pub,
        stake_set: None,
    };
    let legit_msg = make_signed_message(&crypto_provider, "env", "Process", body);
    let count = Arc::new(AtomicUsize::new(0));
    gossiper.initialize(counting(&count));
    match handle(&mut gossiper, &forged) {
        Err(DataError::InvalidSignature) => {}
        other => panic!("forged message must be rejected as InvalidSignature, got {:?}", other),
    }
    handle(&mut gossiper, &legit_msg).unwrap();
    assert_eq!(
        count.load(Ordering::SeqCst),
        1,
        "forged message must not poison the cache; the legit re-send must reach the handler"
    );
}

/// As above, with the honest message from the very key that was claimed.
#[test]
fn forgeries_do_not_block_the_claimed_sender() {
    let (mut gossiper, _crypto_provider) = make_gossiper_with_provider();
    let legit = NodeIdentity::generate_in_memory();
    let honest = Message::signed("env".into(), "Process", vec![3, 1, 4], None, &legit).unwrap();
    let mut forged = honest.clone();
    forged.signature = NodeIdentity::generate_in_memory().sign_message(&forged.body).unwrap();
    let count = Arc::new(AtomicUsize::new(0));
    gossiper.initialize(counting(&count));
    assert!(matches!(handle(&mut gossiper, &forged), Err(DataError::InvalidSignature)));
    assert_eq!(count.load(Ordering::SeqCst), 0);
    handle(&mut gossiper, &honest).unwrap();
    assert_eq!(count.load(Ordering::SeqCst), 1);
}

#[test]
fn gossiper_tampered_body_rejected() {
    let (mut gossiper, crypto_provider) = make_gossiper_with_provider();
    let mut msg = make_signed_message(&crypto_provider, "env", "Process", vec![5, 5, 5]);
    msg.body.push(6);
    match handle(&mut gossiper, &msg) {
        Err(DataError::InvalidSignature) => {}
        other => panic!("tampered body must be rejected as InvalidSignature, got {:?}", other),
    }
}

#[test]
fn undecodable_and_unverifiable_messages_are_refused() {
    let (mut gossiper, _crypto_provider) = make_gossiper_with_provider();
    let broken = std::io::Error::new(std::io::ErrorKind::Other, "broken");
    assert!(matches!(
        gossiper.handle_message(&[1], Err(broken)),
        Err(DataError::DeserializationError(_))
    ));
    assert!(matches!(
        judge_message(Err(PneumaticError::CryptoError("x".to_string())), false),
        Err(DataError::CryptoError(text)) if text == "CryptoError(x)"
    ));
    assert!(matches!(judge_message(Ok(true), true), Ok(false)));
}

#[test]
fn dedup_keys_hash_both_parts() {
    let key = dedup_key(b"abc", b"");
    assert_eq!(
        hex::encode(&key[..32]),
        "ba7816bf8f01cfea414140de5dae2223b00361a396177a9cb410ff61f20015ad"
    );
    assert_ne!(dedup_key(&[1], &[2, 3]), dedup_key(&[1, 2], &[3]));
}

struct Recording {
    rhash: [u8; 16],
    seen: Arc<Mutex<Vec<([u8; 16], Vec<u8>)>>>,
    fails: bool,
}

impl Sender for Recording {
    fn get_response(&self, data: &[u8]) -> Result<Vec<u8>, ConnError> {
        if self.fails {
            return Err(ConnError::IO("down".to_string()));
        }
        self.seen.lock().unwrap().push((self.rhash, data.to_vec()));
        Ok(vec![])
    }
}

fn allow_all(_key: &[u8], _role: &NodeRegistryType) -> bool {
    true
}

#[test]
fn sends_reach_every_node_of_a_role() {
    let (gossiper, _crypto_provider) = make_gossiper_with_provider();
    let mut types = TypeConfigs::new();
    types.insert(NodeRegistryType::Executor, NodeTypeConfig { min: 0, max: 5, min_stake: 0 });
    let config = Config::new_for_testing("test".to_string(), KeyedStore::new(), types);
    let mut registry = NodeRegistry::init(Arc::new(config), allow_all);
    registry.register_peer(vec![1], [1; 16], &NodeRegistryType::Executor, 0);
    registry.register_peer(vec![2], [2; 16], &NodeRegistryType::Executor, 0);
    let seen = Arc::new(Mutex::new(Vec::new()));
    let to_all = |node: &NodeRegistryNode| Recording { rhash: node.rhash, seen: seen.clone(), fails: false };
    gossiper.send_to_type(&registry, &NodeRegistryType::Executor, to_all, &[9]).unwrap();
    let mut got = seen.lock().unwrap().clone();
    got.sort();
    assert_eq!(got, vec![([1; 16], vec![9]), ([2; 16], vec![9])]);
    let broken = |node: &NodeRegistryNode| Recording { rhash: node.rhash, seen: seen.clone(), fails: true };
    match gossiper.send_to_type(&registry, &NodeRegistryType::Executor, broken, &[9]) {
        Err(DataError::FromStore(text)) => assert_eq!(text, "IO(down)"),
        other => panic!("expected FromStore, got {:?}", other),
    }
    assert!(gossiper.send_to_type(&registry, &NodeRegistryType::Sentinel, broken, &[9]).is_ok());
}
