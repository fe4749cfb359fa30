//! `NodeIdentity`: the signing key of a node with its transport address.
use crate::crypto::{check_hybrid_signature, AsymCryptoProvider, Ed25519Provider};
use crate::errors::PneumaticError;
use crate::node::{binding_payload, NodeRegistryType};
use crate::primitives::random_bytes;
use vstd::prelude::*;

verus! {

/// Whether `signature` binds an address and a role set to a key.
pub open spec fn binding_ok(
    public_key: Seq<u8>,
    rhash: Seq<u8>,
    requested_type: NodeRegistryType,
    requester_types: Seq<NodeRegistryType>,
    signature: Seq<u8>,
) -> bool {
    crate::crypto::hybrid_signature_ok(
        signature,
        public_key,
        crate::node::binding_bytes(rhash, requested_type, requester_types),
    )
}

/// A node's keys and its transport address.
pub struct NodeIdentity {
    pub ed25519: Ed25519Provider,
    /// Transport address of the node
    pub rhash: [u8; 16],
}

impl NodeIdentity {
    pub fn new(ed25519: Ed25519Provider, rhash: [u8; 16]) -> (r: Self)
        ensures
            r.ed25519 == ed25519,
            r.rhash == rhash,
    {
        NodeIdentity { ed25519, rhash }
    }

    /// A fresh identity that is kept in memory only.
    pub fn generate_in_memory() -> (r: Self)
        ensures
            r.ed25519.has_key_pairs(),
    {
        let rhash: [u8; 16] = random_bytes::<16>();
        NodeIdentity { ed25519: Ed25519Provider::generate(), rhash }
    }

    /// Sign a message body.
    pub fn sign_message(&self, body: &[u8]) -> (r: Result<Vec<u8>, PneumaticError>)
        ensures
            r matches Ok(signature) && crate::crypto::hybrid_signature_ok(
                signature@,
                self.ed25519.identity(),
                body@,
            ),
    {
        self.ed25519.sign_data(body)
    }

    /// Bind an address and a role set to this node's key.
    pub fn sign_binding(
        &self,
        rhash: &[u8; 16],
        requested_type: &NodeRegistryType,
        requester_types: &[NodeRegistryType],
    ) -> (r: Result<Vec<u8>, PneumaticError>)
        ensures
            r matches Ok(signature) && binding_ok(
                self.ed25519.identity(),
                rhash@,
                *requested_type,
                requester_types@,
                signature@,
            ),
    {
        self.ed25519.sign_data(&binding_payload(rhash, *requested_type, requester_types))
    }

    /// Check that a signature binds an address and a role set to a key.
    pub fn verify_binding(
        public_key: &[u8],
        rhash: &[u8; 16],
        requested_type: &NodeRegistryType,
        requester_types: &[NodeRegistryType],
        signature: &[u8],
    ) -> (r: bool)
        ensures
            r == binding_ok(public_key@, rhash@, *requested_type, requester_types@, signature@),
    {
        check_hybrid_signature(
            signature,
            public_key,
            &binding_payload(rhash, *requested_type, requester_types),
        )
    }
}

} // verus!
