//! The cryptographic primitives that the library takes from other crates.
//!
//! Each function here makes one outside call. What it computes is named by a
//! specification function without a definition; beside the name stand only the
//! facts that the rest of the library builds on.
use aes_gcm::aead::Aead;
use ed25519_dalek::{Signer, Verifier};
use hmac::Mac;
use pqcrypto_traits::kem::{Ciphertext, PublicKey as KemPublicKey, SecretKey as KemSecretKey, SharedSecret};
use pqcrypto_traits::sign::{DetachedSignature, PublicKey as SignPublicKey, SecretKey as SignSecretKey};
use vstd::prelude::*;

verus! {

/// Length of a SHA-256 digest and of an HMAC-SHA256 tag.
pub const DIGEST_LEN: usize = 32;

/// Length of an ML-DSA-44 secret key.
pub const MLDSA_SK_LEN: usize = 2560;

/// Length of an ML-KEM-768 secret key.
pub const MLKEM_SK_LEN: usize = 2400;

/// Length of an ML-KEM-768 shared secret.
pub const MLKEM_SS_LEN: usize = 32;

/// The longest plaintext that AES-GCM encrypts.
pub const AES_GCM_MAX_PLAINTEXT: u64 = 68_719_476_704;

/// The SHA-256 digest of a byte string.
pub uninterp spec fn sha256_digest(data: Seq<u8>) -> [u8; 32];

/// `ring::digest::digest` with `SHA256`: the 32-byte digest of `data`. `ring`
/// panics on inputs of 2^61 bytes and more, which no address space holds.
#[verifier::external_body]
pub(crate) fn digest_sha256(data: &[u8]) -> (r: Vec<u8>)
    ensures
        r@ == sha256_digest(data@)@,
        r@.len() == 32,
{
    ring::digest::digest(&ring::digest::SHA256, data).as_ref().to_vec()
}

/// The HMAC-SHA256 tag of `data` under `key`.
pub uninterp spec fn hmac_sha256_tag(key: Seq<u8>, data: Seq<u8>) -> Seq<u8>;

/// `hmac::Hmac<sha2::Sha256>`, which accepts keys of any length: the 32-byte
/// tag of `data` under `key`.
#[verifier::external_body]
pub(crate) fn mac_sha256(key: &[u8], data: &[u8]) -> (r: [u8; 32])
    ensures
        r@ == hmac_sha256_tag(key@, data@),
{
    let mut mac = <hmac::Hmac<sha2::Sha256> as hmac::KeyInit>::new_from_slice(key)
        .expect("HMAC accepts keys of any length");
    mac.update(data);
    mac.finalize().into_bytes().into()
}

/// The Ed25519 verifying key of a 32-byte seed.
pub uninterp spec fn ed25519_public(seed: Seq<u8>) -> Seq<u8>;

/// `SigningKey::from_bytes` and `SigningKey::verifying_key`: the verifying key
/// that belongs to `seed`.
#[verifier::external_body]
pub(crate) fn ed25519_verifying_key(seed: &[u8; 32]) -> (r: [u8; 32])
    ensures
        r@ == ed25519_public(seed@),
{
    ed25519_dalek::SigningKey::from_bytes(seed).verifying_key().to_bytes()
}

/// Whether an Ed25519 signature over `data` verifies under `key`.
pub uninterp spec fn ed25519_verifies(key: Seq<u8>, data: Seq<u8>, signature: Seq<u8>) -> bool;

/// `VerifyingKey::verify`: whether `signature` over `data` verifies under `key`.
/// A key that is no curve point, or a signature that is not 64 bytes long,
/// does not verify.
#[verifier::external_body]
pub(crate) fn ed25519_verify(key: &[u8; 32], data: &[u8], signature: &[u8]) -> (r: bool)
    ensures
        r == ed25519_verifies(key@, data@, signature@),
        r ==> signature@.len() == 64,
{
    match (
        ed25519_dalek::VerifyingKey::from_bytes(key),
        ed25519_dalek::Signature::from_slice(signature),
    ) {
        (Ok(key), Ok(signature)) => key.verify(data, &signature).is_ok(),
        _ => false,
    }
}

/// The Ed25519 signature over `data` with the key of a 32-byte seed.
pub uninterp spec fn ed25519_signature(seed: Seq<u8>, data: Seq<u8>) -> Seq<u8>;

/// `SigningKey::sign`, which is deterministic: a 64-byte signature over `data`
/// that verifies under the verifying key of `seed`.
#[verifier::external_body]
pub(crate) fn ed25519_sign(seed: &[u8; 32], data: &[u8]) -> (r: Vec<u8>)
    ensures
        r@ == ed25519_signature(seed@, data@),
        r@.len() == 64,
        ed25519_verifies(ed25519_public(seed@), data@, r@),
{
    ed25519_dalek::SigningKey::from_bytes(seed).sign(data).to_vec()
}

/// `public` and `secret` are a key pair that ML-DSA-44 key generation can return.
pub uninterp spec fn mldsa_pair(public: Seq<u8>, secret: Seq<u8>) -> bool;

/// `mldsa44::keypair`: a fresh public key of 1312 bytes with its secret key of
/// 2560 bytes.
#[verifier::external_body]
pub(crate) fn mldsa_generate() -> (r: (Vec<u8>, Vec<u8>))
    ensures
        r.0@.len() == 1312,
        r.1@.len() == 2560,
        mldsa_pair(r.0@, r.1@),
{
    let (public, secret) = pqcrypto_mldsa::mldsa44::keypair();
    (public.as_bytes().to_vec(), secret.as_bytes().to_vec())
}

/// Whether an ML-DSA-44 signature over `data` verifies under `key`.
pub uninterp spec fn mldsa_verifies(key: Seq<u8>, data: Seq<u8>, signature: Seq<u8>) -> bool;

/// `mldsa44::verify_detached_signature`: whether `signature` over `data`
/// verifies under `key`. Keys and signatures of another length do not verify.
#[verifier::external_body]
pub(crate) fn mldsa_verify(key: &[u8], data: &[u8], signature: &[u8]) -> (r: bool)
    ensures
        r == mldsa_verifies(key@, data@, signature@),
        r ==> key@.len() == 1312 && signature@.len() == 2420,
{
    match (
        pqcrypto_mldsa::mldsa44::PublicKey::from_bytes(key),
        pqcrypto_mldsa::mldsa44::DetachedSignature::from_bytes(signature),
    ) {
        (Ok(key), Ok(signature)) => {
            pqcrypto_mldsa::mldsa44::verify_detached_signature(&signature, data, &key).is_ok()
        },
        _ => false,
    }
}

/// `mldsa44::detached_sign`: a 2420-byte signature over `data` that verifies
/// under the public key generated with `secret`. Signing draws randomness, so
/// two signatures over the same bytes may differ.
#[verifier::external_body]
pub(crate) fn mldsa_sign(secret: &[u8], data: &[u8]) -> (r: Vec<u8>)
    requires
        secret@.len() == 2560,
    ensures
        r@.len() == 2420,
        forall|public: Seq<u8>|
            mldsa_pair(public, secret@) ==> #[trigger] mldsa_verifies(public, data@, r@),
{
    let secret = pqcrypto_mldsa::mldsa44::SecretKey::from_bytes(secret).expect("2560-byte key");
    pqcrypto_mldsa::mldsa44::detached_sign(data, &secret).as_bytes().to_vec()
}

/// The X25519 public key of a 32-byte secret.
pub uninterp spec fn x25519_public(secret: Seq<u8>) -> Seq<u8>;

/// The X25519 shared secret of `secret` with the holder of `public`.
pub uninterp spec fn x25519_shared(secret: Seq<u8>, public: Seq<u8>) -> Seq<u8>;

/// `StaticSecret::random`: a fresh secret. Nothing is stated of its bytes.
#[verifier::external_body]
pub(crate) fn x25519_generate() -> (r: [u8; 32])
{
    x25519_dalek::StaticSecret::random().to_bytes()
}

/// `PublicKey::from(&StaticSecret)`: the public key of `secret`.
#[verifier::external_body]
pub(crate) fn x25519_public_key(secret: &[u8; 32]) -> (r: [u8; 32])
    ensures
        r@ == x25519_public(secret@),
{
    x25519_dalek::PublicKey::from(&x25519_dalek::StaticSecret::from(*secret)).to_bytes()
}

/// `StaticSecret::diffie_hellman`: the secret shared with the holder of `public`.
#[verifier::external_body]
pub(crate) fn x25519_agree(secret: &[u8; 32], public: &[u8; 32]) -> (r: [u8; 32])
    ensures
        r@ == x25519_shared(secret@, public@),
{
    let public = x25519_dalek::PublicKey::from(*public);
    x25519_dalek::StaticSecret::from(*secret).diffie_hellman(&public).to_bytes()
}

/// `EphemeralSecret::diffie_hellman` with a fresh secret: the public half of
/// that secret, and the secret shared with the holder of `peer`. Whoever holds
/// the secret behind `peer` derives the same shared secret from the public half.
#[verifier::external_body]
pub(crate) fn x25519_ephemeral(peer: &[u8; 32]) -> (r: ([u8; 32], [u8; 32]))
    ensures
        forall|secret: Seq<u8>|
            secret.len() == 32 && x25519_public(secret) == peer@ ==> r.1@
                == #[trigger] x25519_shared(secret, r.0@),
{
    let secret = x25519_dalek::EphemeralSecret::random();
    let public = x25519_dalek::PublicKey::from(&secret).to_bytes();
    (public, secret.diffie_hellman(&x25519_dalek::PublicKey::from(*peer)).to_bytes())
}

/// `public` and `secret` are a key pair that ML-KEM-768 key generation can return.
pub uninterp spec fn mlkem_pair(public: Seq<u8>, secret: Seq<u8>) -> bool;

/// `mlkem768::keypair`: a fresh public key of 1184 bytes with its secret key of
/// 2400 bytes.
#[verifier::external_body]
pub(crate) fn mlkem_generate() -> (r: (Vec<u8>, Vec<u8>))
    ensures
        r.0@.len() == 1184,
        r.1@.len() == 2400,
        mlkem_pair(r.0@, r.1@),
{
    let (public, secret) = pqcrypto_mlkem::mlkem768::keypair();
    (public.as_bytes().to_vec(), secret.as_bytes().to_vec())
}

/// `secret` and `encapsulation` are what ML-KEM-768 encapsulation for `public`
/// can return.
pub uninterp spec fn mlkem_encapsulates(public: Seq<u8>, secret: Seq<u8>, encapsulation: Seq<u8>) -> bool;

/// `mlkem768::encapsulate`: a fresh 32-byte secret and the 1088-byte
/// encapsulation of it for `public`. That decapsulation gives the secret back
/// is left unsaid: ML-KEM fails to with a small probability.
#[verifier::external_body]
pub(crate) fn mlkem_encapsulate(public: &[u8]) -> (r: (Vec<u8>, Vec<u8>))
    requires
        public@.len() == 1184,
    ensures
        r.0@.len() == 32,
        r.1@.len() == 1088,
        mlkem_encapsulates(public@, r.0@, r.1@),
{
    let public = pqcrypto_mlkem::mlkem768::PublicKey::from_bytes(public).expect("1184-byte key");
    let (secret, encapsulation) = pqcrypto_mlkem::mlkem768::encapsulate(&public);
    (secret.as_bytes().to_vec(), encapsulation.as_bytes().to_vec())
}

/// The secret that an ML-KEM-768 encapsulation yields under a secret key.
pub uninterp spec fn mlkem_shared(encapsulation: Seq<u8>, secret: Seq<u8>) -> Seq<u8>;

/// `mlkem768::decapsulate`: the 32-byte secret that `encapsulation` yields
/// under `secret`.
#[verifier::external_body]
pub(crate) fn mlkem_decapsulate(encapsulation: &[u8], secret: &[u8]) -> (r: Vec<u8>)
    requires
        encapsulation@.len() == 1088,
        secret@.len() == 2400,
    ensures
        r@ == mlkem_shared(encapsulation@, secret@),
        r@.len() == 32,
{
    let encapsulation = pqcrypto_mlkem::mlkem768::Ciphertext::from_bytes(encapsulation).expect("1088 bytes");
    let secret = pqcrypto_mlkem::mlkem768::SecretKey::from_bytes(secret).expect("2400-byte key");
    pqcrypto_mlkem::mlkem768::decapsulate(&encapsulation, &secret).as_bytes().to_vec()
}

/// The first 32 bytes that HKDF-SHA256 derives.
pub uninterp spec fn hkdf_sha256_key(salt: Seq<u8>, secret: Seq<u8>, info: Seq<u8>) -> Seq<u8>;

/// `hkdf::Hkdf<sha2::Sha256>`: 32 bytes derived from `secret`, a length that
/// `expand` always grants.
#[verifier::external_body]
pub(crate) fn hkdf_derive(salt: &[u8], secret: &[u8], info: &[u8]) -> (r: [u8; 32])
    ensures
        r@ == hkdf_sha256_key(salt@, secret@, info@),
{
    let mut okm = [0u8; 32];
    hkdf::Hkdf::<sha2::Sha256>::new(Some(salt), secret)
        .expand(info, &mut okm)
        .expect("32 bytes are within the HKDF output limit");
    okm
}

/// What AES-256-GCM decryption gives back of `sealed`, `None` where the tag
/// does not authenticate it.
pub uninterp spec fn aes_gcm_opened(key: Seq<u8>, nonce: Seq<u8>, sealed: Seq<u8>) -> Option<Seq<u8>>;

/// What AES-256-GCM encryption makes of `data`.
pub uninterp spec fn aes_gcm_sealed(key: Seq<u8>, nonce: Seq<u8>, data: Seq<u8>) -> Seq<u8>;

/// `Aes256Gcm::encrypt`: the ciphertext with its 16-byte tag, which opens to
/// `data` under the same key and nonce. Refused only beyond the length limit.
#[verifier::external_body]
pub(crate) fn aes_gcm_seal(key: &[u8; 32], nonce: &[u8; 12], data: &[u8]) -> (r: Option<Vec<u8>>)
    ensures
        r is Some <==> data@.len() <= AES_GCM_MAX_PLAINTEXT,
        r matches Some(sealed) ==> {
            &&& sealed@ == aes_gcm_sealed(key@, nonce@, data@)
            &&& sealed@.len() == data@.len() + 16
            &&& aes_gcm_opened(key@, nonce@, sealed@) == Some(data@)
        },
{
    let cipher = <aes_gcm::Aes256Gcm as aes_gcm::KeyInit>::new(&(*key).into());
    cipher.encrypt(&(*nonce).into(), data).ok()
}

/// `Aes256Gcm::decrypt`: the plaintext of `sealed`, which is as long as `sealed`
/// without its 16-byte tag, `None` where the tag does not authenticate it.
#[verifier::external_body]
pub(crate) fn aes_gcm_open(key: &[u8; 32], nonce: &[u8; 12], sealed: &[u8]) -> (r: Option<Vec<u8>>)
    ensures
        r matches Some(data) ==> {
            &&& aes_gcm_opened(key@, nonce@, sealed@) == Some(data@)
            &&& sealed@.len() == data@.len() + 16
        },
        r is None ==> aes_gcm_opened(key@, nonce@, sealed@) is None,
{
    let cipher = <aes_gcm::Aes256Gcm as aes_gcm::KeyInit>::new(&(*key).into());
    cipher.decrypt(&(*nonce).into(), sealed).ok()
}

/// `getrandom::getrandom`: fresh bytes. Nothing is stated of them; a system
/// that cannot supply randomness ends the call with a panic.
#[verifier::external_body]
pub(crate) fn random_bytes<const N: usize>() -> (r: [u8; N])
{
    let mut bytes = [0u8; N];
    getrandom::getrandom(&mut bytes).expect("the system supplies randomness");
    bytes
}

} // verus!
