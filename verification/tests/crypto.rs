use pneumatic_core::crypto::{
    derive_aes_key, finish_encrypt, get_asym_provider, hybrid_decrypt, sha256, AsymCryptoProvider,
    AsymCryptoProviderType, BasicHashProvider, Ed25519Provider, HashProvider, ED25519_SIG_LEN,
    HYBRID_KEM_EMPTY_LEN, MLDSA_FULL_SIG_LEN, MLDSA_PK_LEN, MLKEM_CT_LEN, MLKEM_PK_LEN,
    X25519_PK_LEN,
};
use pneumatic_core::errors::PneumaticError;

#[test]
fn test_sign_and_verify() {
    let provider = Ed25519Provider::generate();
    let data = b"test message";
    let signature = provider.sign_data(data).unwrap();
    assert!(provider.check_signature(&signature, &provider.public_key().unwrap(), data).unwrap());
}

#[test]
fn test_signature_rejected_for_tampered_data() {
    let provider = Ed25519Provider::generate();
    let sig = provider.sign_data(b"test message").unwrap();
    assert!(!provider.check_signature(&sig, &provider.public_key().unwrap(), b"tampered message").unwrap());
}

#[test]
fn test_signature_with_wrong_public_key() {
    let provider = Ed25519Provider::generate();
    let sig = provider.sign_data(b"test message").unwrap();
    let other = Ed25519Provider::generate();
    assert!(!provider.check_signature(&sig, &other.public_key().unwrap(), b"test message").unwrap());
}

#[test]
fn test_public_key_consistent() {
    let provider = Ed25519Provider::generate();
    let pk1 = provider.public_key().unwrap();
    let pk2 = provider.public_key().unwrap();
    assert_eq!(pk1, pk2);
    assert_eq!(pk1.len(), 32);
}

#[test]
fn test_hybrid_signature_length_is_fixed() {
    let provider = Ed25519Provider::generate();
    let sig = provider.sign_data(b"hello").unwrap();
    assert_eq!(sig.len(), MLDSA_FULL_SIG_LEN);
    assert_eq!(MLDSA_FULL_SIG_LEN, 3796);
}

#[test]
fn test_ed25519_half_verifies_and_ml_dsa_half_verifies() {
    let provider = Ed25519Provider::generate();
    let data = b"hybrid discriminator";
    let sig = provider.sign_data(data).unwrap();
    let ed25519_pk = provider.public_key().unwrap();
    let mldsa_pk = provider.mldsa_public_key().unwrap();
    assert!(provider.check_ed25519_half(&sig[..ED25519_SIG_LEN], &ed25519_pk, data).unwrap());
    assert!(provider
        .check_ml_dsa_half(&sig[ED25519_SIG_LEN + MLDSA_PK_LEN..], &mldsa_pk, data)
        .unwrap());
    assert!(provider.check_signature(&sig, &ed25519_pk, data).unwrap());
}

#[test]
fn test_ml_dsa_half_does_not_verify_under_ed25519_key() {
    let provider = Ed25519Provider::generate();
    let sig = provider.sign_data(b"test").unwrap();
    assert!(!provider
        .check_ml_dsa_half(
            &sig[ED25519_SIG_LEN + MLDSA_PK_LEN..],
            &provider.public_key().unwrap(),
            b"test",
        )
        .unwrap());
}

#[test]
fn one_broken_half_breaks_the_signature() {
    let provider = Ed25519Provider::generate();
    let pk = provider.public_key().unwrap();
    let sig = provider.sign_data(b"both").unwrap();
    let mut classical = sig.clone();
    classical[0] ^= 1;
    assert!(!provider.check_signature(&classical, &pk, b"both").unwrap());
    let mut post_quantum = sig.clone();
    post_quantum[ED25519_SIG_LEN + MLDSA_PK_LEN] ^= 1;
    assert!(!provider.check_signature(&post_quantum, &pk, b"both").unwrap());
    assert!(provider.check_ed25519_half(&post_quantum[..ED25519_SIG_LEN], &pk, b"both").unwrap());
}

#[test]
fn test_hash_sha256() {
    let hp = BasicHashProvider::new();
    let hash = hp.hash(b"hello, pneumatic");
    assert_eq!(hash.len(), 32);
}

#[test]
fn test_hash_deterministic() {
    let hp = BasicHashProvider::new();
    let data = b"deterministic test";
    assert_eq!(hp.hash(data), hp.hash(data));
}

#[test]
fn test_sha256_free_function() {
    let hash = sha256(b"sha256 function test");
    assert_eq!(hash.len(), 32);
}

#[test]
fn sha256_known_answer() {
    assert_eq!(
        hex::encode(sha256(b"abc")),
        "ba7816bf8f01cfea414140de5dae2223b00361a396177a9cb410ff61f20015ad"
    );
}

#[test]
fn seed_determines_the_identity() {
    // Published Ed25519 test vector for this seed.
    let seed: [u8; 32] = hex::decode("9d61b19deffd5a60ba844af492ec2cc44449c5697b326919703bac031cae7f60")
        .unwrap()
        .try_into()
        .unwrap();
    let provider = Ed25519Provider::from_seed(seed);
    assert_eq!(
        hex::encode(provider.public_key().unwrap()),
        "d75a980182b10ab7d54bfed3c964073a0ee172f3daa62325af021a68f707511a"
    );
    let again = Ed25519Provider::from_seed(seed);
    assert_eq!(again.public_key().unwrap(), provider.public_key().unwrap());
    assert_eq!(
        again.sign_data(b"m").unwrap()[..ED25519_SIG_LEN],
        provider.sign_data(b"m").unwrap()[..ED25519_SIG_LEN]
    );
}

#[test]
fn test_encrypt_decrypt_roundtrip() {
    let provider = Ed25519Provider::generate();
    let data = vec![1u8, 2, 3, 4];
    let encrypted = provider.encrypt(data.clone()).unwrap();
    let decrypted = provider.decrypt(encrypted).unwrap();
    assert_eq!(data, decrypted);
}

#[test]
fn test_encrypt_decrypt_empty_data() {
    let provider = Ed25519Provider::generate();
    let data = vec![];
    let encrypted = provider.encrypt(data).unwrap();
    assert_eq!(encrypted.len(), HYBRID_KEM_EMPTY_LEN);
    assert_eq!(HYBRID_KEM_EMPTY_LEN, 2332);
    let decrypted = provider.decrypt(encrypted).unwrap();
    assert_eq!(decrypted, Vec::<u8>::new());
}

#[test]
fn test_encrypt_to_decrypt_from_roundtrip() {
    let sender = Ed25519Provider::generate();
    let recipient = Ed25519Provider::generate();
    let recipient_x25519 = recipient.x25519_public_key().unwrap();
    let recipient_mlkem_pk = recipient.mlkem_public_key().unwrap();
    let data = b"cross-recipient message";
    let encrypted = sender
        .encrypt_to(&recipient_x25519, &recipient_mlkem_pk, data.to_vec())
        .unwrap();
    let decrypted = recipient.decrypt_from(encrypted).unwrap();
    assert_eq!(data.to_vec(), decrypted);
}

#[test]
fn test_decrypt_from_wrong_recipient_returns_error() {
    let sender = Ed25519Provider::generate();
    let recipient = Ed25519Provider::generate();
    let wrong_receiver = Ed25519Provider::generate();
    let recipient_x25519 = recipient.x25519_public_key().unwrap();
    let recipient_mlkem_pk = recipient.mlkem_public_key().unwrap();
    let encrypted = sender
        .encrypt_to(&recipient_x25519, &recipient_mlkem_pk, b"secret".to_vec())
        .unwrap();
    let result = wrong_receiver.decrypt_from(encrypted);
    assert!(result.is_err());
    match result {
        Err(PneumaticError::CryptoError(msg)) => {
            assert_eq!(msg, "ML-KEM recipient key does not match this node")
        }
        other => panic!("expected CryptoError, got {:?}", other),
    }
}

#[test]
fn test_encrypt_to_empty_data() {
    let sender = Ed25519Provider::generate();
    let recipient = Ed25519Provider::generate();
    let recipient_x25519 = recipient.x25519_public_key().unwrap();
    let recipient_mlkem_pk = recipient.mlkem_public_key().unwrap();
    let encrypted = sender
        .encrypt_to(&recipient_x25519, &recipient_mlkem_pk, vec![])
        .unwrap();
    assert_eq!(encrypted.len(), HYBRID_KEM_EMPTY_LEN);
    let decrypted = recipient.decrypt_from(encrypted).unwrap();
    assert_eq!(decrypted, Vec::<u8>::new());
}

#[test]
fn test_encrypt_to_self() {
    let provider = Ed25519Provider::generate();
    let pk = provider.x25519_public_key().unwrap();
    let mlkem_pk = provider.mlkem_public_key().unwrap();
    let data = b"self-encrypted";
    let encrypted = provider.encrypt_to(&pk, &mlkem_pk, data.to_vec()).unwrap();
    let decrypted = provider.decrypt_from(encrypted).unwrap();
    assert_eq!(data.to_vec(), decrypted);
}

#[test]
fn encrypt_to_refuses_a_malformed_key() {
    let sender = Ed25519Provider::generate();
    let x = sender.x25519_public_key().unwrap();
    match sender.encrypt_to(&x, &[0u8; 10], vec![1]) {
        Err(PneumaticError::CryptoError(msg)) => assert_eq!(msg, "invalid recipient ML-KEM public key"),
        other => panic!("expected CryptoError, got {:?}", other),
    }
}

#[test]
fn messages_carry_the_recipient_key() {
    let provider = Ed25519Provider::generate();
    let encrypted = provider.encrypt(vec![9]).unwrap();
    let at = X25519_PK_LEN + MLKEM_CT_LEN;
    assert_eq!(encrypted[at..at + MLKEM_PK_LEN].to_vec(), provider.mlkem_public_key().unwrap());
}

#[test]
fn tampered_ciphertext_is_refused() {
    let provider = Ed25519Provider::generate();
    let mut encrypted = provider.encrypt(vec![1, 2, 3]).unwrap();
    let last = encrypted.len() - 1;
    encrypted[last] ^= 1;
    match provider.decrypt(encrypted) {
        Err(PneumaticError::CryptoError(msg)) => {
            assert_eq!(msg, "AES-GCM decryption failed (wrong key or tampered): Error")
        }
        other => panic!("expected CryptoError, got {:?}", other),
    }
}

#[test]
fn messages_are_laid_out_from_their_parts() {
    let message = finish_encrypt(&[1; 32], &[2; 32], &[3; 1184], &[4; 1088], &[5; 32], &[6; 12], b"hi").unwrap();
    assert_eq!(message.len(), HYBRID_KEM_EMPTY_LEN + 2);
    assert_eq!(message[..32], [1; 32]);
    assert_eq!(message[32..32 + 1088], [4; 1088]);
    assert_eq!(message[1120..1120 + 1184], [3; 1184]);
    assert_eq!(message[2304..2316], [6; 12]);
    assert_ne!(message[2316..2318], b"hi"[..]);
    let again = finish_encrypt(&[1; 32], &[2; 32], &[3; 1184], &[4; 1088], &[5; 32], &[6; 12], b"hi").unwrap();
    assert_eq!(message, again);
    assert_ne!(derive_aes_key(&[2; 32], &[5; 32]), derive_aes_key(&[5; 32], &[2; 32]));
    assert!(hybrid_decrypt(&[0; 32], &[0; 2400], &[0; 1184], &message).is_err());
}

#[test]
fn test_invalid_signature_length() {
    let provider = Ed25519Provider::generate();
    assert!(!provider.check_signature(&vec![0u8; 100], &provider.public_key().unwrap(), b"test").unwrap());
}

#[test]
fn test_invalid_public_key_length() {
    let provider = Ed25519Provider::generate();
    let sig = provider.sign_data(b"test").unwrap();
    assert!(!provider.check_signature(&sig, &vec![0u8; 100], b"test").unwrap());
}

#[test]
fn test_default_generates_key() {
    assert_eq!(Ed25519Provider::default().public_key().unwrap().len(), 32);
    let provider = get_asym_provider(&AsymCryptoProviderType::Ed25519);
    assert_eq!(provider.public_key().unwrap().len(), 32);
}

#[test]
fn test_different_nonces_per_encryption() {
    let provider = Ed25519Provider::generate();
    let data = b"repeated plaintext";
    let encrypted1 = provider.encrypt(data.to_vec()).unwrap();
    let encrypted2 = provider.encrypt(data.to_vec()).unwrap();
    assert_ne!(encrypted1, encrypted2);
}

#[test]
fn test_encrypt_to_different_ciphertexts() {
    let sender1 = Ed25519Provider::generate();
    let sender2 = Ed25519Provider::generate();
    let recipient = Ed25519Provider::generate();
    let recipient_x25519 = recipient.x25519_public_key().unwrap();
    let recipient_mlkem_pk = recipient.mlkem_public_key().unwrap();
    let data = b"same plaintext";
    let encrypted1 = sender1
        .encrypt_to(&recipient_x25519, &recipient_mlkem_pk, data.to_vec())
        .unwrap();
    let encrypted2 = sender2
        .encrypt_to(&recipient_x25519, &recipient_mlkem_pk, data.to_vec())
        .unwrap();
    assert_ne!(encrypted1, encrypted2);
}

#[test]
fn test_decrypt_short_input_returns_error() {
    let provider = Ed25519Provider::generate();
    let result = provider.decrypt_from(vec![0u8; 10]);
    assert!(result.is_err());
    match result {
        Err(PneumaticError::CryptoError(msg)) => {
            assert_eq!(msg, "Decrypt input too short for hybrid KEM header")
        }
        other => panic!("expected CryptoError, got {:?}", other),
    }
}
