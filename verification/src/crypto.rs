//! Asymmetric cryptography in hybrid form: each operation joins a classical and
//! a post-quantum primitive, and only breaking both breaks it.
//!
//! A signature is `[Ed25519 signature | ML-DSA-44 public key | ML-DSA-44
//! signature]`. An encrypted message is `[X25519 ephemeral key | ML-KEM-768
//! encapsulation | ML-KEM-768 recipient key | nonce | ciphertext and tag]`.
use crate::bytes::{append_bytes, bytes_eq, copy_bytes};
use crate::errors::PneumaticError;
use crate::primitives::{
    aes_gcm_open, aes_gcm_seal, digest_sha256, ed25519_sign, ed25519_verify, ed25519_verifying_key,
    hkdf_derive, mldsa_generate, mldsa_sign, mldsa_verify, mlkem_decapsulate, mlkem_encapsulate,
    mlkem_generate, random_bytes, x25519_agree, x25519_ephemeral, x25519_generate,
};
use vstd::prelude::*;
use vstd::slice::slice_subrange;

verus! {

/// Length of an Ed25519 signature.
pub const ED25519_SIG_LEN: usize = 64;

/// Length of an ML-DSA-44 public key.
pub const MLDSA_PK_LEN: usize = 1312;

/// Length of an ML-DSA-44 signature.
pub const MLDSA_SIG_LEN: usize = 2420;

/// Length of a hybrid signature.
pub const MLDSA_FULL_SIG_LEN: usize = ED25519_SIG_LEN + MLDSA_PK_LEN + MLDSA_SIG_LEN;

/// Length of an X25519 public key.
pub const X25519_PK_LEN: usize = 32;

/// Length of an ML-KEM-768 encapsulation.
pub const MLKEM_CT_LEN: usize = 1088;

/// Length of an ML-KEM-768 public key.
pub const MLKEM_PK_LEN: usize = 1184;

/// Length of an AES-GCM nonce.
pub const NONCE_LEN: usize = 12;

/// Length of an AES-GCM tag.
pub const GCM_TAG_LEN: usize = 16;

/// Length of everything before the ciphertext of an encrypted message.
pub const HYBRID_KEM_HEADER_LEN: usize = X25519_PK_LEN + MLKEM_CT_LEN + MLKEM_PK_LEN + NONCE_LEN;

/// Length of an encrypted empty message.
pub const HYBRID_KEM_EMPTY_LEN: usize = HYBRID_KEM_HEADER_LEN + GCM_TAG_LEN;

/// The kinds of providers that there are.
#[derive(Clone, Copy, Debug, PartialEq, Eq, Structural)]
pub enum AsymCryptoProviderType {
    Ed25519,
}

/// Generate a provider of the given kind.
pub fn get_asym_provider(provider_type: &AsymCryptoProviderType) -> (r: Ed25519Provider)
    ensures
        r.has_key_pairs(),
{
    match provider_type {
        AsymCryptoProviderType::Ed25519 => Ed25519Provider::generate(),
    }
}

/// Asymmetric encryption and signatures.
pub trait AsymCryptoProvider: Send + Sync {
    /// Encrypt `data` for this provider itself.
    fn encrypt(&self, data: Vec<u8>) -> Result<Vec<u8>, PneumaticError>;

    /// Decrypt data that was encrypted with `encrypt`.
    fn decrypt(&self, data: Vec<u8>) -> Result<Vec<u8>, PneumaticError>;

    /// Encrypt `data` to the holder of an X25519 key and an ML-KEM-768 key.
    fn encrypt_to(
        &self,
        recipient_public_key: &[u8; 32],
        recipient_mlkem_pk: &[u8],
        data: Vec<u8>,
    ) -> Result<Vec<u8>, PneumaticError>;

    /// Decrypt data that was encrypted to this provider.
    fn decrypt_from(&self, data: Vec<u8>) -> Result<Vec<u8>, PneumaticError>;

    /// Verify a hybrid signature over `data` of the holder of an Ed25519 key.
    fn check_signature(&self, signature: &[u8], public_key: &[u8], data: &[u8]) -> Result<
        bool,
        PneumaticError,
    >;

    /// Sign `data`.
    fn sign_data(&self, data: &[u8]) -> Result<Vec<u8>, PneumaticError>;

    /// The Ed25519 verifying key, the identity on the chain.
    fn public_key(&self) -> Result<Vec<u8>, PneumaticError>;
}

/// Whether a hybrid signature holds: it has the fixed length, its Ed25519 half
/// verifies under the given key, and its ML-DSA half verifies under the key
/// that it carries.
pub open spec fn hybrid_signature_ok(
    signature: Seq<u8>,
    public_key: Seq<u8>,
    data: Seq<u8>,
) -> bool {
    &&& signature.len() == MLDSA_FULL_SIG_LEN
    &&& public_key.len() == 32
    &&& crate::primitives::ed25519_verifies(
        public_key,
        data,
        signature.subrange(0, ED25519_SIG_LEN as int),
    )
    &&& crate::primitives::mldsa_verifies(
        signature.subrange(ED25519_SIG_LEN as int, ED25519_SIG_LEN + MLDSA_PK_LEN),
        data,
        signature.subrange(ED25519_SIG_LEN + MLDSA_PK_LEN, MLDSA_FULL_SIG_LEN as int),
    )
}

/// The label of the key derivation.
pub open spec fn key_label() -> Seq<u8> {
    seq![
        97u8,
        101u8,
        115u8,
        50u8,
        53u8,
        54u8,
        45u8,
        103u8,
        99u8,
        109u8,
        45u8,
        107u8,
        101u8,
        121u8,
    ]
}

/// The AES key that both shared secrets together give.
pub open spec fn message_key(x25519_secret: Seq<u8>, mlkem_secret: Seq<u8>) -> Seq<u8> {
    crate::primitives::hkdf_sha256_key(key_label(), x25519_secret + mlkem_secret, key_label())
}

/// An encrypted message with all its parts.
pub open spec fn sealed_message(
    ephemeral_pk: Seq<u8>,
    x25519_secret: Seq<u8>,
    recipient_pk: Seq<u8>,
    encapsulation: Seq<u8>,
    mlkem_secret: Seq<u8>,
    nonce: Seq<u8>,
    data: Seq<u8>,
) -> Seq<u8> {
    ephemeral_pk + encapsulation + recipient_pk + nonce + crate::primitives::aes_gcm_sealed(
        message_key(x25519_secret, mlkem_secret),
        nonce,
        data,
    )
}

/// The ephemeral key of an encrypted message.
pub open spec fn ephemeral_part(message: Seq<u8>) -> Seq<u8> {
    message.subrange(0, X25519_PK_LEN as int)
}

/// The encapsulation of an encrypted message.
pub open spec fn encapsulation_part(message: Seq<u8>) -> Seq<u8> {
    message.subrange(X25519_PK_LEN as int, X25519_PK_LEN + MLKEM_CT_LEN)
}

/// The recipient key of an encrypted message.
pub open spec fn recipient_part(message: Seq<u8>) -> Seq<u8> {
    message.subrange(X25519_PK_LEN + MLKEM_CT_LEN, X25519_PK_LEN + MLKEM_CT_LEN + MLKEM_PK_LEN)
}

/// The nonce of an encrypted message.
pub open spec fn nonce_part(message: Seq<u8>) -> Seq<u8> {
    message.subrange(
        X25519_PK_LEN + MLKEM_CT_LEN + MLKEM_PK_LEN,
        HYBRID_KEM_HEADER_LEN as int,
    )
}

/// The ciphertext and tag of an encrypted message.
pub open spec fn ciphertext_part(message: Seq<u8>) -> Seq<u8> {
    message.subrange(HYBRID_KEM_HEADER_LEN as int, message.len() as int)
}

/// Why a message is not decrypted, or what it says.
pub enum Opened {
    TooShort,
    OtherRecipient,
    NotAuthentic,
    Plain(Seq<u8>),
}

/// What the holder of the given keys makes of a message.
pub open spec fn opened(
    x25519_secret: Seq<u8>,
    mlkem_secret_key: Seq<u8>,
    mlkem_public_key: Seq<u8>,
    message: Seq<u8>,
) -> Opened {
    if message.len() < HYBRID_KEM_EMPTY_LEN {
        Opened::TooShort
    } else if recipient_part(message) != mlkem_public_key {
        Opened::OtherRecipient
    } else {
        let key = message_key(
            crate::primitives::x25519_shared(x25519_secret, ephemeral_part(message)),
            crate::primitives::mlkem_shared(encapsulation_part(message), mlkem_secret_key),
        );
        match crate::primitives::aes_gcm_opened(
            key,
            nonce_part(message),
            ciphertext_part(message),
        ) {
            Some(data) => Opened::Plain(data),
            None => Opened::NotAuthentic,
        }
    }
}

/// The result of a decryption says what `opened` does.
pub open spec fn decrypts(r: Result<Vec<u8>, PneumaticError>, outcome: Opened) -> bool {
    match outcome {
        Opened::TooShort => crypto_error(r, "Decrypt input too short for hybrid KEM header"@),
        Opened::OtherRecipient => crypto_error(r, "ML-KEM recipient key does not match this node"@),
        Opened::NotAuthentic => crypto_error(
            r,
            "AES-GCM decryption failed (wrong key or tampered): Error"@,
        ),
        Opened::Plain(data) => r matches Ok(plain) && plain@ == data,
    }
}

/// The result is a cryptographic error with the given text.
pub open spec fn crypto_error<T>(r: Result<T, PneumaticError>, text: Seq<char>) -> bool {
    r matches Err(PneumaticError::CryptoError(msg)) && msg@ == text
}

/// A message is decrypted exactly where it says something to the holder of the
/// keys, and then to what it says; each way to fail reads differently.
pub proof fn decryption_fails_for_one_reason(
    outcome: Opened,
    r: Result<Vec<u8>, PneumaticError>,
    other: Opened,
    s: Result<Vec<u8>, PneumaticError>,
)
    requires
        decrypts(r, outcome),
        decrypts(s, other),
    ensures
        r is Ok <==> outcome is Plain,
        outcome matches Opened::Plain(data) ==> (r matches Ok(plain) && plain@ == data),
        r is Err ==> r matches Err(PneumaticError::CryptoError(_)),
        (r matches Err(PneumaticError::CryptoError(a)) && s matches Err(
            PneumaticError::CryptoError(b),
        ) && a@ == b@) ==> outcome == other,
{
    reveal_strlit("Decrypt input too short for hybrid KEM header");
    reveal_strlit("ML-KEM recipient key does not match this node");
    reveal_strlit("AES-GCM decryption failed (wrong key or tampered): Error");
    assert("Decrypt input too short for hybrid KEM header"@[0] == 'D');
    assert("ML-KEM recipient key does not match this node"@[0] == 'M');
    assert("AES-GCM decryption failed (wrong key or tampered): Error"@[0] == 'A');
}

/// `message` is an encryption of `data` to the holder of the two recipient keys,
/// made with some ephemeral key, encapsulation and nonce. Whoever holds the
/// X25519 secret of the recipient agrees on the classical shared secret.
pub open spec fn encrypted_to(
    recipient_x25519: Seq<u8>,
    recipient_mlkem: Seq<u8>,
    data: Seq<u8>,
    message: Seq<u8>,
) -> bool {
    exists|x25519_secret: Seq<u8>, mlkem_secret: Seq<u8>|
        #![trigger message_key(x25519_secret, mlkem_secret)]
        {
            &&& message.len() == HYBRID_KEM_EMPTY_LEN + data.len()
            &&& message == sealed_message(
                ephemeral_part(message),
                x25519_secret,
                recipient_mlkem,
                encapsulation_part(message),
                mlkem_secret,
                nonce_part(message),
                data,
            )
            &&& crate::primitives::aes_gcm_opened(
                message_key(x25519_secret, mlkem_secret),
                nonce_part(message),
                ciphertext_part(message),
            ) == Some(data)
            &&& crate::primitives::mlkem_encapsulates(
                recipient_mlkem,
                mlkem_secret,
                encapsulation_part(message),
            )
            &&& forall|secret: Seq<u8>|
                secret.len() == 32 && crate::primitives::x25519_public(secret) == recipient_x25519
                    ==> x25519_secret == #[trigger] crate::primitives::x25519_shared(
                    secret,
                    ephemeral_part(message),
                )
        }
}

/// Decapsulation of `encapsulation` with `secret_key` gives back every secret
/// that encapsulation for `public_key` can have sealed in it.
pub open spec fn decapsulates(
    public_key: Seq<u8>,
    secret_key: Seq<u8>,
    encapsulation: Seq<u8>,
) -> bool {
    forall|secret: Seq<u8>| #[trigger]
        crate::primitives::mlkem_encapsulates(public_key, secret, encapsulation)
            ==> crate::primitives::mlkem_shared(encapsulation, secret_key) == secret
}

/// The recipient reads back what was encrypted to them, unless decapsulation
/// fails.
pub proof fn recipient_reads_the_message(
    x25519_secret: Seq<u8>,
    mlkem_secret_key: Seq<u8>,
    mlkem_public_key: Seq<u8>,
    data: Seq<u8>,
    message: Seq<u8>,
)
    requires
        x25519_secret.len() == 32,
        mlkem_public_key.len() == MLKEM_PK_LEN,
        encrypted_to(
            crate::primitives::x25519_public(x25519_secret),
            mlkem_public_key,
            data,
            message,
        ),
        decapsulates(mlkem_public_key, mlkem_secret_key, encapsulation_part(message)),
    ensures
        opened(x25519_secret, mlkem_secret_key, mlkem_public_key, message) == Opened::Plain(data),
{
    lemma_recipient_part(
        crate::primitives::x25519_public(x25519_secret),
        mlkem_public_key,
        data,
        message,
    );
}

/// A message carries the ML-KEM key of its recipient, so nobody else's check of
/// that key passes.
pub proof fn only_the_recipient_is_addressed(
    recipient_x25519: Seq<u8>,
    recipient_mlkem: Seq<u8>,
    data: Seq<u8>,
    message: Seq<u8>,
    x25519_secret: Seq<u8>,
    mlkem_secret_key: Seq<u8>,
    mlkem_public_key: Seq<u8>,
)
    requires
        recipient_mlkem.len() == MLKEM_PK_LEN,
        encrypted_to(recipient_x25519, recipient_mlkem, data, message),
        mlkem_public_key != recipient_mlkem,
    ensures
        opened(x25519_secret, mlkem_secret_key, mlkem_public_key, message)
            == Opened::OtherRecipient,
{
    lemma_recipient_part(recipient_x25519, recipient_mlkem, data, message);
}

proof fn lemma_recipient_part(
    recipient_x25519: Seq<u8>,
    recipient_mlkem: Seq<u8>,
    data: Seq<u8>,
    message: Seq<u8>,
)
    requires
        recipient_mlkem.len() == MLKEM_PK_LEN,
        encrypted_to(recipient_x25519, recipient_mlkem, data, message),
    ensures
        recipient_part(message) == recipient_mlkem,
{
    assert(recipient_part(message) =~= recipient_mlkem);
}

/// A hybrid signature is an Ed25519 signature, an ML-DSA-44 public key and an
/// ML-DSA-44 signature, one after the other, and holds exactly where both
/// signatures do.
pub proof fn both_halves_must_verify(
    ed25519_half: Seq<u8>,
    mldsa_pk: Seq<u8>,
    mldsa_half: Seq<u8>,
    public_key: Seq<u8>,
    data: Seq<u8>,
)
    requires
        ed25519_half.len() == 64,
        mldsa_pk.len() == 1312,
        mldsa_half.len() == 2420,
        public_key.len() == 32,
    ensures
        hybrid_signature_ok(ed25519_half + mldsa_pk + mldsa_half, public_key, data)
            <==> crate::primitives::ed25519_verifies(public_key, data, ed25519_half)
            && crate::primitives::mldsa_verifies(mldsa_pk, data, mldsa_half),
{
    let signature = ed25519_half + mldsa_pk + mldsa_half;
    assert(signature.subrange(0, 64) =~= ed25519_half);
    assert(signature.subrange(64, 1376) =~= mldsa_pk);
    assert(signature.subrange(1376, 3796) =~= mldsa_half);
}

/// Signatures and keys of other sizes never hold.
pub proof fn other_sizes_never_verify(signature: Seq<u8>, public_key: Seq<u8>, data: Seq<u8>)
    requires
        signature.len() != 64 + 1312 + 2420 || public_key.len() != 32,
    ensures
        !hybrid_signature_ok(signature, public_key, data),
{
}

/// Both shared secrets, and nothing else that varies, go into the key of a
/// message: the key is derived from the one followed by the other, under the
/// label `aes256-gcm-key`.
pub proof fn both_secrets_make_the_key(x25519_secret: Seq<u8>, mlkem_secret: Seq<u8>)
    ensures
        ({
            let label = Seq::new("aes256-gcm-key"@.len(), |i: int| "aes256-gcm-key"@[i] as u8);
            message_key(x25519_secret, mlkem_secret) == crate::primitives::hkdf_sha256_key(
                label,
                x25519_secret + mlkem_secret,
                label,
            )
        }),
{
    reveal_strlit("aes256-gcm-key");
    let label = Seq::new("aes256-gcm-key"@.len(), |i: int| "aes256-gcm-key"@[i] as u8);
    assert(label =~= key_label());
}

/// A message is read part by part: an ephemeral key, an encapsulation, the key of
/// the recipient, a nonce and the ciphertext. It says what the ciphertext opens to
/// under the key that both secrets agree on, and nothing to other recipients.
pub proof fn messages_are_read_part_by_part(
    x25519_secret: Seq<u8>,
    mlkem_secret_key: Seq<u8>,
    mlkem_public_key: Seq<u8>,
    ephemeral: Seq<u8>,
    encapsulation: Seq<u8>,
    recipient: Seq<u8>,
    nonce: Seq<u8>,
    ciphertext: Seq<u8>,
)
    requires
        ephemeral.len() == 32,
        encapsulation.len() == 1088,
        recipient.len() == 1184,
        nonce.len() == 12,
    ensures
        ({
            let message = ephemeral + encapsulation + recipient + nonce + ciphertext;
            let read = opened(x25519_secret, mlkem_secret_key, mlkem_public_key, message);
            let plain = crate::primitives::aes_gcm_opened(
                message_key(
                    crate::primitives::x25519_shared(x25519_secret, ephemeral),
                    crate::primitives::mlkem_shared(encapsulation, mlkem_secret_key),
                ),
                nonce,
                ciphertext,
            );
            &&& read == Opened::TooShort <==> ciphertext.len() < 16
            &&& read == Opened::OtherRecipient <==> ciphertext.len() >= 16 && recipient
                != mlkem_public_key
            &&& ciphertext.len() >= 16 && recipient == mlkem_public_key ==> (match plain {
                Some(data) => read == Opened::Plain(data),
                None => read == Opened::NotAuthentic,
            })
        }),
{
    let message = ephemeral + encapsulation + recipient + nonce + ciphertext;
    assert(ephemeral_part(message) =~= ephemeral);
    assert(encapsulation_part(message) =~= encapsulation);
    assert(recipient_part(message) =~= recipient);
    assert(nonce_part(message) =~= nonce);
    assert(ciphertext_part(message) =~= ciphertext);
}

/// An encrypted message holds the ephemeral key, the encapsulation, the key of the
/// recipient and the nonce as they are, and the data only as sealed under the key
/// that both secrets give.
pub proof fn messages_are_written_part_by_part(
    ephemeral: Seq<u8>,
    x25519_secret: Seq<u8>,
    recipient: Seq<u8>,
    encapsulation: Seq<u8>,
    mlkem_secret: Seq<u8>,
    nonce: Seq<u8>,
    data: Seq<u8>,
)
    requires
        ephemeral.len() == 32,
        encapsulation.len() == 1088,
        recipient.len() == 1184,
        nonce.len() == 12,
    ensures
        ({
            let message = sealed_message(
                ephemeral,
                x25519_secret,
                recipient,
                encapsulation,
                mlkem_secret,
                nonce,
                data,
            );
            &&& message.subrange(0, 32) == ephemeral
            &&& message.subrange(32, 1120) == encapsulation
            &&& message.subrange(1120, 2304) == recipient
            &&& message.subrange(2304, 2316) == nonce
            &&& message.subrange(2316, message.len() as int) == crate::primitives::aes_gcm_sealed(
                message_key(x25519_secret, mlkem_secret),
                nonce,
                data,
            )
        }),
{
    let message = sealed_message(
        ephemeral,
        x25519_secret,
        recipient,
        encapsulation,
        mlkem_secret,
        nonce,
        data,
    );
    assert(message.subrange(0, 32) =~= ephemeral);
    assert(message.subrange(32, 1120) =~= encapsulation);
    assert(message.subrange(1120, 2304) =~= recipient);
    assert(message.subrange(2304, 2316) =~= nonce);
    assert(message.subrange(2316, message.len() as int) =~= crate::primitives::aes_gcm_sealed(
        message_key(x25519_secret, mlkem_secret),
        nonce,
        data,
    ));
}

/// The 32 bytes at the start of a slice.
fn first_32(data: &[u8]) -> (r: [u8; 32])
    requires
        data@.len() >= 32,
    ensures
        r@ == data@.subrange(0, 32),
{
    let mut out: [u8; 32] = [0u8; 32];
    let mut i: usize = 0;
    while i < 32
        invariant
            i <= 32,
            data@.len() >= 32,
            forall|j: int| 0 <= j < i ==> out@[j] == data@[j],
        decreases 32 - i,
    {
        out[i] = data[i];
        i += 1;
    }
    assert(out@ =~= data@.subrange(0, 32));
    out
}

/// The 12 bytes at the start of a slice.
fn first_12(data: &[u8]) -> (r: [u8; 12])
    requires
        data@.len() >= 12,
    ensures
        r@ == data@.subrange(0, 12),
{
    let mut out: [u8; 12] = [0u8; 12];
    let mut i: usize = 0;
    while i < 12
        invariant
            i <= 12,
            data@.len() >= 12,
            forall|j: int| 0 <= j < i ==> out@[j] == data@[j],
        decreases 12 - i,
    {
        out[i] = data[i];
        i += 1;
    }
    assert(out@ =~= data@.subrange(0, 12));
    out
}

/// The AES key of a message, from the two shared secrets.
pub fn derive_aes_key(x25519_secret: &[u8], mlkem_secret: &[u8]) -> (r: [u8; 32])
    ensures
        r@ == message_key(x25519_secret@, mlkem_secret@),
{
    let label: [u8; 14] = [
        97u8,
        101u8,
        115u8,
        50u8,
        53u8,
        54u8,
        45u8,
        103u8,
        99u8,
        109u8,
        45u8,
        107u8,
        101u8,
        121u8,
    ];
    assert(label@ =~= key_label());
    let mut shared = copy_bytes(x25519_secret);
    append_bytes(&mut shared, mlkem_secret);
    hkdf_derive(&label, &shared, &label)
}

/// Put an encrypted message together from the two shared secrets and a nonce.
/// Fails only where the plaintext is beyond what AES-GCM encrypts.
pub fn finish_encrypt(
    x25519_eph_pk: &[u8; 32],
    x25519_ss: &[u8; 32],
    mlkem_recipient_pk: &[u8],
    mlkem_ct: &[u8],
    mlkem_ss: &[u8],
    nonce: &[u8; 12],
    data: &[u8],
) -> (r: Result<Vec<u8>, PneumaticError>)
    ensures
        r is Ok <==> data@.len() <= crate::primitives::AES_GCM_MAX_PLAINTEXT,
        r matches Ok(message) ==> message@ == sealed_message(
            x25519_eph_pk@,
            x25519_ss@,
            mlkem_recipient_pk@,
            mlkem_ct@,
            mlkem_ss@,
            nonce@,
            data@,
        ) && crate::primitives::aes_gcm_sealed(
            message_key(x25519_ss@, mlkem_ss@),
            nonce@,
            data@,
        ).len() == data@.len() + GCM_TAG_LEN && crate::primitives::aes_gcm_opened(
            message_key(x25519_ss@, mlkem_ss@),
            nonce@,
            crate::primitives::aes_gcm_sealed(message_key(x25519_ss@, mlkem_ss@), nonce@, data@),
        ) == Some(data@),
        r is Err ==> crypto_error(r, "AES-GCM encryption failed: Error"@),
{
    let aes_key = derive_aes_key(x25519_ss, mlkem_ss);
    match aes_gcm_seal(&aes_key, nonce, data) {
        Some(ciphertext) => {
            let mut result = copy_bytes(x25519_eph_pk);
            append_bytes(&mut result, mlkem_ct);
            append_bytes(&mut result, mlkem_recipient_pk);
            append_bytes(&mut result, nonce);
            append_bytes(&mut result, &ciphertext);
            Ok(result)
        },
        None => Err(PneumaticError::CryptoError("AES-GCM encryption failed: Error".to_owned())),
    }
}

/// Decrypt a message with the recipient's keys. Fails closed where the message
/// names another recipient.
pub fn hybrid_decrypt(
    x25519_secret: &[u8; 32],
    mlkem_self_sk: &[u8],
    mlkem_self_pk: &[u8],
    data: &[u8],
) -> (r: Result<Vec<u8>, PneumaticError>)
    requires
        mlkem_self_sk@.len() == crate::primitives::MLKEM_SK_LEN,
    ensures
        decrypts(r, opened(x25519_secret@, mlkem_self_sk@, mlkem_self_pk@, data@)),
        r matches Ok(plain) ==> plain@.len() + HYBRID_KEM_EMPTY_LEN == data@.len(),
{
    if data.len() < HYBRID_KEM_EMPTY_LEN {
        return Err(
            PneumaticError::CryptoError(
                "Decrypt input too short for hybrid KEM header".to_owned(),
            ),
        );
    }
    let ephemeral = first_32(data);
    assert(ephemeral@ =~= ephemeral_part(data@));
    let encapsulation = slice_subrange(data, X25519_PK_LEN, X25519_PK_LEN + MLKEM_CT_LEN);
    let recipient = slice_subrange(
        data,
        X25519_PK_LEN + MLKEM_CT_LEN,
        X25519_PK_LEN + MLKEM_CT_LEN + MLKEM_PK_LEN,
    );
    if !bytes_eq(recipient, mlkem_self_pk) {
        return Err(
            PneumaticError::CryptoError(
                "ML-KEM recipient key does not match this node".to_owned(),
            ),
        );
    }
    let x25519_ss = x25519_agree(x25519_secret, &ephemeral);
    let mlkem_ss = mlkem_decapsulate(encapsulation, mlkem_self_sk);
    let aes_key = derive_aes_key(&x25519_ss, &mlkem_ss);
    let payload = slice_subrange(
        data,
        X25519_PK_LEN + MLKEM_CT_LEN + MLKEM_PK_LEN,
        data.len(),
    );
    let nonce = first_12(payload);
    let sealed = slice_subrange(payload, NONCE_LEN, payload.len());
    assert(nonce@ =~= nonce_part(data@));
    assert(sealed@ =~= ciphertext_part(data@));
    match aes_gcm_open(&aes_key, &nonce, sealed) {
        Some(plain) => Ok(plain),
        None => Err(
            PneumaticError::CryptoError(
                "AES-GCM decryption failed (wrong key or tampered): Error".to_owned(),
            ),
        ),
    }
}

/// Encrypt to the holder of an X25519 key and an ML-KEM-768 key, with a fresh
/// ephemeral key, encapsulation and nonce.
fn hybrid_encrypt(recipient_x25519: &[u8; 32], recipient_mlkem: &[u8], data: &[u8]) -> (r: Result<
    Vec<u8>,
    PneumaticError,
>)
    requires
        recipient_mlkem@.len() == MLKEM_PK_LEN,
    ensures
        r is Ok <==> data@.len() <= crate::primitives::AES_GCM_MAX_PLAINTEXT,
        r matches Ok(message) ==> encrypted_to(
            recipient_x25519@,
            recipient_mlkem@,
            data@,
            message@,
        ),
        r is Err ==> crypto_error(r, "AES-GCM encryption failed: Error"@),
{
    let (ephemeral, x25519_ss) = x25519_ephemeral(recipient_x25519);
    let (mlkem_ss, mlkem_ct) = mlkem_encapsulate(recipient_mlkem);
    let nonce: [u8; 12] = random_bytes::<12>();
    let r = finish_encrypt(
        &ephemeral,
        &x25519_ss,
        recipient_mlkem,
        &mlkem_ct,
        &mlkem_ss,
        &nonce,
        data,
    );
    proof {
        if r is Ok {
            let m = r->Ok_0@;
            let key = message_key(x25519_ss@, mlkem_ss@);
            assert(ephemeral_part(m) =~= ephemeral@);
            assert(encapsulation_part(m) =~= mlkem_ct@);
            assert(nonce_part(m) =~= nonce@);
            assert(ciphertext_part(m) =~= crate::primitives::aes_gcm_sealed(key, nonce@, data@));
        }
    }
    r
}

/// Verify a hybrid signature: both halves have to hold.
pub fn check_hybrid_signature(signature: &[u8], public_key: &[u8], data: &[u8]) -> (r: bool)
    ensures
        r == hybrid_signature_ok(signature@, public_key@, data@),
{
    if signature.len() != MLDSA_FULL_SIG_LEN || public_key.len() != 32 {
        return false;
    }
    let ed25519_sig = slice_subrange(signature, 0, ED25519_SIG_LEN);
    let mldsa_pk = slice_subrange(signature, ED25519_SIG_LEN, ED25519_SIG_LEN + MLDSA_PK_LEN);
    let mldsa_sig = slice_subrange(signature, ED25519_SIG_LEN + MLDSA_PK_LEN, MLDSA_FULL_SIG_LEN);
    let key = first_32(public_key);
    assert(key@ =~= public_key@);
    ed25519_verify(&key, data, ed25519_sig) && mldsa_verify(mldsa_pk, data, mldsa_sig)
}

/// Hybrid provider with four key pairs: Ed25519 (the identity), X25519,
/// ML-DSA-44 and ML-KEM-768.
pub struct Ed25519Provider {
    seed: [u8; 32],
    verifying_key: [u8; 32],
    x25519_secret: [u8; 32],
    mldsa_pk: Vec<u8>,
    mldsa_sk: Vec<u8>,
    mlkem_pk: Vec<u8>,
    mlkem_sk: Vec<u8>,
}

impl Ed25519Provider {
    /// The keys have their lengths and belong together.
    #[verifier::type_invariant]
    pub closed spec fn wf(self) -> bool {
        &&& self.verifying_key@ == crate::primitives::ed25519_public(self.seed@)
        &&& self.mldsa_pk@.len() == MLDSA_PK_LEN
        &&& self.mldsa_sk@.len() == crate::primitives::MLDSA_SK_LEN
        &&& crate::primitives::mldsa_pair(self.mldsa_pk@, self.mldsa_sk@)
        &&& self.mlkem_pk@.len() == MLKEM_PK_LEN
        &&& self.mlkem_sk@.len() == crate::primitives::MLKEM_SK_LEN
        &&& crate::primitives::mlkem_pair(self.mlkem_pk@, self.mlkem_sk@)
    }

    /// The Ed25519 seed.
    pub closed spec fn seed(&self) -> Seq<u8> {
        self.seed@
    }

    /// The X25519 secret.
    pub closed spec fn x25519_secret(&self) -> Seq<u8> {
        self.x25519_secret@
    }

    /// The ML-DSA-44 public key.
    pub closed spec fn mldsa_public(&self) -> Seq<u8> {
        self.mldsa_pk@
    }

    /// The ML-DSA-44 secret key.
    pub closed spec fn mldsa_secret(&self) -> Seq<u8> {
        self.mldsa_sk@
    }

    /// The ML-KEM-768 public key.
    pub closed spec fn mlkem_public(&self) -> Seq<u8> {
        self.mlkem_pk@
    }

    /// The ML-KEM-768 secret key.
    pub closed spec fn mlkem_secret(&self) -> Seq<u8> {
        self.mlkem_sk@
    }

    /// The Ed25519 verifying key, which the seed determines.
    pub open spec fn identity(&self) -> Seq<u8> {
        crate::primitives::ed25519_public(self.seed())
    }

    /// Every key has its length, and the ML-DSA-44 and ML-KEM-768 keys are pairs
    /// that key generation can return.
    pub open spec fn has_key_pairs(&self) -> bool {
        &&& self.seed().len() == 32
        &&& self.identity().len() == 32
        &&& self.x25519_secret().len() == 32
        &&& self.mldsa_public().len() == MLDSA_PK_LEN
        &&& self.mldsa_secret().len() == crate::primitives::MLDSA_SK_LEN
        &&& crate::primitives::mldsa_pair(self.mldsa_public(), self.mldsa_secret())
        &&& self.mlkem_public().len() == MLKEM_PK_LEN
        &&& self.mlkem_secret().len() == crate::primitives::MLKEM_SK_LEN
        &&& crate::primitives::mlkem_pair(self.mlkem_public(), self.mlkem_secret())
    }

    /// Generate a fresh set of keys. Which keys come out is left to chance.
    pub fn generate() -> (r: Self)
        ensures
            r.has_key_pairs(),
    {
        let seed: [u8; 32] = random_bytes::<32>();
        Ed25519Provider::from_seed(seed)
    }

    /// Build a provider from an Ed25519 seed. The other keys are generated
    /// afresh.
    pub fn from_seed(seed: [u8; 32]) -> (r: Self)
        ensures
            r.seed() == seed@,
            r.has_key_pairs(),
    {
        let verifying_key = ed25519_verifying_key(&seed);
        let x25519_secret = x25519_generate();
        let (mldsa_pk, mldsa_sk) = mldsa_generate();
        let (mlkem_pk, mlkem_sk) = mlkem_generate();
        Ed25519Provider {
            seed,
            verifying_key,
            x25519_secret,
            mldsa_pk,
            mldsa_sk,
            mlkem_pk,
            mlkem_sk,
        }
    }

    /// Verify only the Ed25519 half of a hybrid signature.
    pub fn check_ed25519_half(
        &self,
        signature: &[u8],
        ed25519_public_key: &[u8],
        data: &[u8],
    ) -> (r: Result<bool, PneumaticError>)
        ensures
            r == Ok::<bool, PneumaticError>(
                ed25519_public_key@.len() == 32 && crate::primitives::ed25519_verifies(
                    ed25519_public_key@,
                    data@,
                    signature@,
                ),
            ),
    {
        if ed25519_public_key.len() != 32 {
            return Ok(false);
        }
        let key = first_32(ed25519_public_key);
        assert(key@ =~= ed25519_public_key@);
        Ok(ed25519_verify(&key, data, signature))
    }

    /// Verify only the ML-DSA-44 half of a hybrid signature.
    pub fn check_ml_dsa_half(&self, signature: &[u8], mldsa_pk: &[u8], data: &[u8]) -> (r: Result<
        bool,
        PneumaticError,
    >)
        ensures
            r == Ok::<bool, PneumaticError>(
                crate::primitives::mldsa_verifies(mldsa_pk@, data@, signature@),
            ),
    {
        Ok(mldsa_verify(mldsa_pk, data, signature))
    }

    /// Return the X25519 public key, for use with `encrypt_to`.
    pub fn x25519_public_key(&self) -> (r: Result<[u8; 32], PneumaticError>)
        ensures
            r matches Ok(key) && key@ == crate::primitives::x25519_public(self.x25519_secret()),
            self.has_key_pairs(),
    {
        proof {
            use_type_invariant(self);
        }
        Ok(crate::primitives::x25519_public_key(&self.x25519_secret))
    }

    /// Return the ML-DSA-44 public key, which every signature carries.
    pub fn mldsa_public_key(&self) -> (r: Result<Vec<u8>, PneumaticError>)
        ensures
            r matches Ok(key) && key@ == self.mldsa_public() && key@.len() == MLDSA_PK_LEN,
            self.has_key_pairs(),
    {
        proof {
            use_type_invariant(self);
        }
        Ok(copy_bytes(&self.mldsa_pk))
    }

    /// Return the ML-KEM-768 public key, which every message carries.
    pub fn mlkem_public_key(&self) -> (r: Result<Vec<u8>, PneumaticError>)
        ensures
            r matches Ok(key) && key@ == self.mlkem_public() && key@.len() == MLKEM_PK_LEN,
            self.has_key_pairs(),
    {
        proof {
            use_type_invariant(self);
        }
        Ok(copy_bytes(&self.mlkem_pk))
    }
}

impl Default for Ed25519Provider {
    fn default() -> (r: Self)
        ensures
            r.has_key_pairs(),
    {
        Ed25519Provider::generate()
    }
}

impl AsymCryptoProvider for Ed25519Provider {
    fn encrypt(&self, data: Vec<u8>) -> (r: Result<Vec<u8>, PneumaticError>)
        ensures
            r is Ok <==> data@.len() <= crate::primitives::AES_GCM_MAX_PLAINTEXT,
            r matches Ok(message) ==> encrypted_to(
                crate::primitives::x25519_public(self.x25519_secret()),
                self.mlkem_public(),
                data@,
                message@,
            ),
            r is Err ==> crypto_error(r, "AES-GCM encryption failed: Error"@),
    {
        proof {
            use_type_invariant(self);
        }
        let own = crate::primitives::x25519_public_key(&self.x25519_secret);
        hybrid_encrypt(&own, &self.mlkem_pk, &data)
    }

    fn decrypt(&self, data: Vec<u8>) -> (r: Result<Vec<u8>, PneumaticError>)
        ensures
            decrypts(
                r,
                opened(self.x25519_secret(), self.mlkem_secret(), self.mlkem_public(), data@),
            ),
            r matches Ok(plain) ==> plain@.len() + HYBRID_KEM_EMPTY_LEN == data@.len(),
    {
        proof {
            use_type_invariant(self);
        }
        hybrid_decrypt(&self.x25519_secret, &self.mlkem_sk, &self.mlkem_pk, &data)
    }

    fn encrypt_to(
        &self,
        recipient_public_key: &[u8; 32],
        recipient_mlkem_pk: &[u8],
        data: Vec<u8>,
    ) -> (r: Result<Vec<u8>, PneumaticError>)
        ensures
            r is Ok <==> recipient_mlkem_pk@.len() == MLKEM_PK_LEN && data@.len()
                <= crate::primitives::AES_GCM_MAX_PLAINTEXT,
            r matches Ok(message) ==> encrypted_to(
                recipient_public_key@,
                recipient_mlkem_pk@,
                data@,
                message@,
            ),
            recipient_mlkem_pk@.len() != MLKEM_PK_LEN ==> crypto_error(
                r,
                "invalid recipient ML-KEM public key"@,
            ),
            recipient_mlkem_pk@.len() == MLKEM_PK_LEN && r is Err ==> crypto_error(
                r,
                "AES-GCM encryption failed: Error"@,
            ),
    {
        if recipient_mlkem_pk.len() != MLKEM_PK_LEN {
            return Err(
                PneumaticError::CryptoError("invalid recipient ML-KEM public key".to_owned()),
            );
        }
        hybrid_encrypt(recipient_public_key, recipient_mlkem_pk, &data)
    }

    fn decrypt_from(&self, data: Vec<u8>) -> (r: Result<Vec<u8>, PneumaticError>)
        ensures
            decrypts(
                r,
                opened(self.x25519_secret(), self.mlkem_secret(), self.mlkem_public(), data@),
            ),
            r matches Ok(plain) ==> plain@.len() + HYBRID_KEM_EMPTY_LEN == data@.len(),
    {
        self.decrypt(data)
    }

    fn check_signature(&self, signature: &[u8], public_key: &[u8], data: &[u8]) -> (r: Result<
        bool,
        PneumaticError,
    >)
        ensures
            r == Ok::<bool, PneumaticError>(
                hybrid_signature_ok(signature@, public_key@, data@),
            ),
    {
        Ok(check_hybrid_signature(signature, public_key, data))
    }

    fn sign_data(&self, data: &[u8]) -> (r: Result<Vec<u8>, PneumaticError>)
        ensures
            r matches Ok(signature) && hybrid_signature_ok(signature@, self.identity(), data@)
                && signature@.subrange(0, ED25519_SIG_LEN as int)
                == crate::primitives::ed25519_signature(self.seed(), data@) && signature@.subrange(
                ED25519_SIG_LEN as int,
                ED25519_SIG_LEN + MLDSA_PK_LEN,
            ) == self.mldsa_public(),
    {
        proof {
            use_type_invariant(self);
        }
        let ed25519_sig = ed25519_sign(&self.seed, data);
        let mldsa_sig = mldsa_sign(&self.mldsa_sk, data);
        let mut signature = copy_bytes(&ed25519_sig);
        append_bytes(&mut signature, &self.mldsa_pk);
        append_bytes(&mut signature, &mldsa_sig);
        proof {
            let s = signature@;
            assert(s.subrange(0, ED25519_SIG_LEN as int) =~= ed25519_sig@);
            assert(s.subrange(ED25519_SIG_LEN as int, ED25519_SIG_LEN + MLDSA_PK_LEN)
                =~= self.mldsa_pk@);
            assert(s.subrange(ED25519_SIG_LEN + MLDSA_PK_LEN, MLDSA_FULL_SIG_LEN as int)
                =~= mldsa_sig@);
            assert(self.verifying_key@.len() == 32);
        }
        Ok(signature)
    }

    fn public_key(&self) -> (r: Result<Vec<u8>, PneumaticError>)
        ensures
            r matches Ok(key) && key@ == self.identity() && key@.len() == 32,
            self.has_key_pairs(),
    {
        proof {
            use_type_invariant(self);
        }
        Ok(copy_bytes(&self.verifying_key))
    }
}

/// Computes cryptographic hashes.
pub trait HashProvider: Send + Sync {
    fn hash(&self, data: &[u8]) -> Vec<u8>;
}

/// SHA-256.
pub struct BasicHashProvider;

impl Default for BasicHashProvider {
    fn default() -> Self {
        BasicHashProvider
    }
}

impl BasicHashProvider {
    pub fn new() -> Self {
        BasicHashProvider
    }
}

impl HashProvider for BasicHashProvider {
    fn hash(&self, data: &[u8]) -> (r: Vec<u8>)
        ensures
            r@ == crate::primitives::sha256_digest(data@)@,
            r@.len() == 32,
    {
        digest_sha256(data)
    }
}

/// Compute a SHA-256 hash.
pub fn sha256(data: &[u8]) -> (r: Vec<u8>)
    ensures
        r@ == crate::primitives::sha256_digest(data@)@,
        r@.len() == 32,
{
    BasicHashProvider::new().hash(data)
}

} // verus!
