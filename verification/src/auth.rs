//! Envelope authentication: verify the signature over a body, then look up the
//! roles of the sender. Either step fails closed.
use crate::bytes::copy_bytes;
use crate::crypto::AsymCryptoProvider;
use crate::errors::PneumaticError;
use crate::node::registry::NodeRegistry;
use crate::node::NodeRegistryType;
use vstd::prelude::*;

verus! {

/// Why an envelope sender was not authenticated.
#[derive(Debug, PartialEq, Eq)]
pub enum EnvelopeAuthError {
    /// The signature did not verify under the claimed key. `reason` is there
    /// where the provider itself failed.
    Signature { public_key: Vec<u8>, reason: Option<String> },
    /// The signature holds, but the key is registered under no role.
    Unregistered { public_key: Vec<u8> },
}

impl Clone for EnvelopeAuthError {
    fn clone(&self) -> (r: Self)
        ensures
            match (*self, r) {
                (
                    EnvelopeAuthError::Signature { public_key: a, reason: x },
                    EnvelopeAuthError::Signature { public_key: b, reason: y },
                ) => a@ == b@ && x == y,
                (
                    EnvelopeAuthError::Unregistered { public_key: a },
                    EnvelopeAuthError::Unregistered { public_key: b },
                ) => a@ == b@,
                _ => false,
            },
    {
        match self {
            EnvelopeAuthError::Signature { public_key, reason } => EnvelopeAuthError::Signature {
                public_key: copy_bytes(public_key),
                reason: match reason {
                    Some(text) => Some(text.clone()),
                    None => None,
                },
            },
            EnvelopeAuthError::Unregistered { public_key } => EnvelopeAuthError::Unregistered {
                public_key: copy_bytes(public_key),
            },
        }
    }
}

/// What an envelope amounts to, given what the provider said of its signature
/// and the roles of its key.
pub open spec fn envelope_outcome(
    verified: Result<bool, PneumaticError>,
    public_key: Seq<u8>,
    roles: Seq<NodeRegistryType>,
    r: Result<Vec<NodeRegistryType>, EnvelopeAuthError>,
) -> bool {
    match verified {
        Err(e) => r matches Err(EnvelopeAuthError::Signature { public_key: key, reason: Some(text) })
            && key@ == public_key && e.shows(text@),
        Ok(false) => r matches Err(EnvelopeAuthError::Signature { public_key: key, reason: None })
            && key@ == public_key,
        Ok(true) => if roles.len() == 0 {
            r matches Err(EnvelopeAuthError::Unregistered { public_key: key }) && key@ == public_key
        } else {
            r matches Ok(found) && found@ == roles
        },
    }
}

/// Authentication fails closed: an envelope is accepted exactly where its
/// signature verified and its key is registered under some role, and then with
/// exactly the roles of that key.
pub proof fn authentication_fails_closed(
    verified: Result<bool, PneumaticError>,
    public_key: Seq<u8>,
    roles: Seq<NodeRegistryType>,
    r: Result<Vec<NodeRegistryType>, EnvelopeAuthError>,
)
    requires
        envelope_outcome(verified, public_key, roles, r),
    ensures
        r is Ok <==> (verified matches Ok(ok) && ok) && roles.len() > 0,
        r matches Ok(found) ==> found@ == roles,
{
}

/// A refused envelope is told why: a signature that did not verify is told apart
/// from a key without a role, the reason of a provider that failed is passed on,
/// and the error always names the key of the envelope.
pub proof fn refusals_name_the_key(
    verified: Result<bool, PneumaticError>,
    public_key: Seq<u8>,
    roles: Seq<NodeRegistryType>,
    r: Result<Vec<NodeRegistryType>, EnvelopeAuthError>,
)
    requires
        envelope_outcome(verified, public_key, roles, r),
    ensures
        r matches Err(e) ==> match e {
            EnvelopeAuthError::Signature { public_key: key, reason } => key@ == public_key
                && verified != Ok::<bool, PneumaticError>(true) && (reason is Some <==> verified
                is Err),
            EnvelopeAuthError::Unregistered { public_key: key } => key@ == public_key && verified
                == Ok::<bool, PneumaticError>(true) && roles.len() == 0,
        },
{
}

/// Judge an envelope by what the provider said of its signature and by the
/// roles of its key.
pub fn judge_envelope(
    verified: Result<bool, PneumaticError>,
    public_key: &[u8],
    roles: Vec<NodeRegistryType>,
) -> (r: Result<Vec<NodeRegistryType>, EnvelopeAuthError>)
    ensures
        envelope_outcome(verified, public_key@, roles@, r),
{
    match verified {
        Err(e) => Err(
            EnvelopeAuthError::Signature {
                public_key: copy_bytes(public_key),
                reason: Some(e.to_string()),
            },
        ),
        Ok(verified) => {
            if !verified {
                return Err(
                    EnvelopeAuthError::Signature {
                        public_key: copy_bytes(public_key),
                        reason: None,
                    },
                );
            }
            if roles.len() == 0 {
                return Err(
                    EnvelopeAuthError::Unregistered { public_key: copy_bytes(public_key) },
                );
            }
            Ok(roles)
        },
    }
}

/// Verify an envelope signature and resolve the sender's registered roles. On
/// success all roles of the sender are returned; which of them may do what is
/// up to the caller.
pub fn authenticate_envelope<P: AsymCryptoProvider, S: Fn(&[u8], &NodeRegistryType) -> bool>(
    crypto: &P,
    registry: &NodeRegistry<S>,
    signature: &[u8],
    public_key: &[u8],
    body: &[u8],
) -> (r: Result<Vec<NodeRegistryType>, EnvelopeAuthError>)
    requires
        registry.wf(),
    ensures
        exists|verified: Result<bool, PneumaticError>| #[trigger]
            call_ensures(P::check_signature, (crypto, signature, public_key, body), verified)
                && envelope_outcome(
                verified,
                public_key@,
                crate::node::registry::roles_of(registry@, public_key@),
                r,
            ),
{
    let verified = crypto.check_signature(signature, public_key, body);
    let roles = registry.find_node_types_by_public_key(public_key);
    judge_envelope(verified, public_key, roles)
}

} // verus!
