//! Messages between services.
use crate::bytes::copy_bytes;
use crate::crypto::AsymCryptoProvider;
use crate::encoding::pack_str;
use crate::epoch::StakeSet;
use crate::errors::PneumaticError;
use crate::rns::identity::NodeIdentity;
use vstd::prelude::*;

verus! {

/// A message between services.
#[derive(Debug)]
pub struct Message {
    /// Target environment or token blockchain
    pub chain_id: String,
    /// Action to perform, such as "Process" or "Register"
    pub action: String,
    /// Encoded action body
    pub body: Vec<u8>,
    /// Signature over the body
    pub signature: Vec<u8>,
    /// Public key of the sender
    pub public_key: Vec<u8>,
    /// Stake set for quorum gossip, on "BlockFinalized" messages only
    pub stake_set: Option<StakeSet>,
}

/// A typed message body.
#[derive(Debug)]
pub struct MessageBody<T> {
    /// The action name, such as "ProcessTransaction"
    pub action: String,
    /// The typed payload
    pub body: T,
}

impl<T: Clone> Clone for MessageBody<T> {
    fn clone(&self) -> (r: Self)
        ensures
            r.action == self.action,
            cloned(self.body, r.body),
    {
        MessageBody { action: self.action.clone(), body: self.body.clone() }
    }
}

/// Two messages agree in every field.
pub open spec fn same_message(a: Message, b: Message) -> bool {
    &&& a.chain_id == b.chain_id
    &&& a.action == b.action
    &&& a.body@ == b.body@
    &&& a.signature@ == b.signature@
    &&& a.public_key@ == b.public_key@
    &&& match (a.stake_set, b.stake_set) {
        (Some(x), Some(y)) => x.stakers@ == y.stakers@,
        (None, None) => true,
        _ => false,
    }
}

/// A copy of a message goes to the same chain with the same action and body, and
/// its signature holds exactly where that of the message does.
pub proof fn copied_messages_are_as_authentic(a: Message, b: Message)
    requires
        same_message(a, b),
    ensures
        a.chain_id@ == b.chain_id@,
        a.action@ == b.action@,
        a.body@ == b.body@,
        a.public_key@ == b.public_key@,
        crate::crypto::hybrid_signature_ok(a.signature@, a.public_key@, a.body@)
            == crate::crypto::hybrid_signature_ok(b.signature@, b.public_key@, b.body@),
        a.stake_set is Some <==> b.stake_set is Some,
        a.stake_set is Some ==> a.stake_set->0.stakers@ == b.stake_set->0.stakers@,
{
}

impl Clone for Message {
    fn clone(&self) -> (r: Self)
        ensures
            same_message(r, *self),
    {
        Message {
            chain_id: self.chain_id.clone(),
            action: self.action.clone(),
            body: copy_bytes(&self.body),
            signature: copy_bytes(&self.signature),
            public_key: copy_bytes(&self.public_key),
            stake_set: match &self.stake_set {
                Some(set) => Some(set.clone()),
                None => None,
            },
        }
    }
}

/// `message` is the message that a node sends with the given contents.
pub open spec fn sent_by(
    identity: NodeIdentity,
    chain_id: String,
    action: Seq<char>,
    body: Vec<u8>,
    stake_set: Option<StakeSet>,
    message: Message,
) -> bool {
    &&& message.chain_id == chain_id
    &&& message.action@ == action
    &&& message.body == body
    &&& message.stake_set == stake_set
    &&& message.public_key@ == identity.ed25519.identity()
    &&& crate::crypto::hybrid_signature_ok(
        message.signature@,
        identity.ed25519.identity(),
        body@,
    )
}

/// Whoever checks a sent message with the key that it carries finds both halves of
/// its signature to hold over its body; that key is the one of the sender's seed,
/// and the message carries what was to be sent.
pub proof fn sent_messages_are_authentic(
    identity: NodeIdentity,
    chain_id: String,
    action: Seq<char>,
    body: Vec<u8>,
    stake_set: Option<StakeSet>,
    message: Message,
)
    requires
        sent_by(identity, chain_id, action, body, stake_set, message),
    ensures
        message.body@ == body@,
        message.action@ == action,
        message.chain_id@ == chain_id@,
        message.stake_set == stake_set,
        message.public_key@ == crate::primitives::ed25519_public(identity.ed25519.seed()),
        crate::primitives::ed25519_verifies(
            message.public_key@,
            message.body@,
            message.signature@.subrange(0, 64),
        ),
        crate::primitives::mldsa_verifies(
            message.signature@.subrange(64, 1376),
            message.body@,
            message.signature@.subrange(1376, 3796),
        ),
{
}

impl Message {
    /// Build an outgoing message and sign its body with the node's identity.
    /// Receivers verify the signature over the body with the sender's key.
    pub fn signed(
        chain_id: String,
        action: &str,
        body: Vec<u8>,
        stake_set: Option<StakeSet>,
        identity: &NodeIdentity,
    ) -> (r: Result<Self, PneumaticError>)
        ensures
            r matches Ok(message) && message.chain_id == chain_id && message.action@ == action@
                && message.body == body && message.stake_set == stake_set && message.public_key@
                == identity.ed25519.identity() && crate::crypto::hybrid_signature_ok(
                message.signature@,
                message.public_key@,
                message.body@,
            ),
            r matches Ok(message) && sent_by(
                *identity,
                chain_id,
                action@,
                body,
                stake_set,
                message,
            ),
    {
        match (identity.sign_message(&body), identity.ed25519.public_key()) {
            (Ok(signature), Ok(public_key)) => Ok(
                Message {
                    signature,
                    public_key,
                    chain_id,
                    action: action.to_owned(),
                    body,
                    stake_set,
                },
            ),
            (Err(e), _) => Err(e),
            (_, Err(e)) => Err(e),
        }
    }
}

/// Returns the acknowledgement payload: the text "ack" in MessagePack.
pub fn acknowledge() -> (r: Vec<u8>)
    ensures
        r@ == crate::encoding::packed_str("ack"@),
{
    pack_str("ack")
}

} // verus!
