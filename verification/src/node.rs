//! Node types, registration messages and registry entries.
pub mod registry;
pub mod stake_index;

use crate::bytes::copy_bytes;
use crate::encoding::pack_binding;
use vstd::prelude::*;

verus! {

#[derive(Debug, Clone, Copy, PartialEq, Eq, Structural)]
pub enum NodeType {
    Full,
    Light,
}

/// Limits of one registry type.
#[derive(Debug, Clone, Copy, PartialEq, Eq, Structural)]
pub struct NodeTypeConfig {
    pub min: usize,
    pub max: usize,
    pub min_stake: u64,
}

/// The roles that a node can register for.
#[derive(Debug, Clone, Copy, PartialEq, Eq, PartialOrd, Ord, Hash, Structural)]
pub enum NodeRegistryType {
    Committer,
    Sentinel,
    Executor,
    Finalizer,
    Archiver,
}

/// All roles, in their order.
pub open spec fn all_roles() -> Seq<NodeRegistryType> {
    seq![
        NodeRegistryType::Committer,
        NodeRegistryType::Sentinel,
        NodeRegistryType::Executor,
        NodeRegistryType::Finalizer,
        NodeRegistryType::Archiver,
    ]
}

/// The names of a list of roles.
pub open spec fn role_names(roles: Seq<NodeRegistryType>) -> Seq<Seq<char>> {
    Seq::new(roles.len(), |i: int| roles[i].name_text())
}

impl NodeRegistryType {
    /// The name of the role.
    pub open spec fn name_text(&self) -> Seq<char> {
        match self {
            NodeRegistryType::Committer => "Committer"@,
            NodeRegistryType::Sentinel => "Sentinel"@,
            NodeRegistryType::Executor => "Executor"@,
            NodeRegistryType::Finalizer => "Finalizer"@,
            NodeRegistryType::Archiver => "Archiver"@,
        }
    }

    /// The name of the role.
    pub fn name(&self) -> (r: &'static str)
        ensures
            r@ == self.name_text(),
    {
        match self {
            NodeRegistryType::Committer => "Committer",
            NodeRegistryType::Sentinel => "Sentinel",
            NodeRegistryType::Executor => "Executor",
            NodeRegistryType::Finalizer => "Finalizer",
            NodeRegistryType::Archiver => "Archiver",
        }
    }

    /// The position of the role among all roles.
    pub open spec fn position(&self) -> u8 {
        match self {
            NodeRegistryType::Committer => 0,
            NodeRegistryType::Sentinel => 1,
            NodeRegistryType::Executor => 2,
            NodeRegistryType::Finalizer => 3,
            NodeRegistryType::Archiver => 4,
        }
    }

    /// The position of the role among all roles.
    pub fn index(&self) -> (r: u8)
        ensures
            r == self.position(),
            r < 5,
    {
        match self {
            NodeRegistryType::Committer => 0,
            NodeRegistryType::Sentinel => 1,
            NodeRegistryType::Executor => 2,
            NodeRegistryType::Finalizer => 3,
            NodeRegistryType::Archiver => 4,
        }
    }

    /// All roles, in their order.
    pub fn all() -> (r: Vec<NodeRegistryType>)
        ensures
            r@ == all_roles(),
    {
        let r: Vec<NodeRegistryType> = vec![
            NodeRegistryType::Committer,
            NodeRegistryType::Sentinel,
            NodeRegistryType::Executor,
            NodeRegistryType::Finalizer,
            NodeRegistryType::Archiver,
        ];
        assert(r@ =~= all_roles());
        r
    }
}

/// Whether a role is in a list.
pub fn role_in(roles: &[NodeRegistryType], role: NodeRegistryType) -> (r: bool)
    ensures
        r == roles@.contains(role),
{
    let mut i: usize = 0;
    while i < roles.len()
        invariant
            i <= roles@.len(),
            forall|j: int| 0 <= j < i ==> roles@[j] != role,
        decreases roles@.len() - i,
    {
        if roles[i] == role {
            return true;
        }
        i += 1;
    }
    false
}

/// A copy of a list of roles.
pub fn copy_roles(roles: &[NodeRegistryType]) -> (r: Vec<NodeRegistryType>)
    ensures
        r@ == roles@,
{
    let mut r: Vec<NodeRegistryType> = Vec::with_capacity(roles.len());
    let mut i: usize = 0;
    while i < roles.len()
        invariant
            i <= roles@.len(),
            r@ == roles@.take(i as int),
        decreases roles@.len() - i,
    {
        r.push(roles[i]);
        i += 1;
        assert(r@ =~= roles@.take(i as int));
    }
    assert(r@ =~= roles@);
    r
}

/// The names of a list of roles.
pub fn list_role_names(roles: &[NodeRegistryType]) -> (r: Vec<String>)
    ensures
        crate::transactions::string_views(r@) == role_names(roles@),
{
    let mut r: Vec<String> = Vec::with_capacity(roles.len());
    let mut i: usize = 0;
    while i < roles.len()
        invariant
            i <= roles@.len(),
            r@.len() == i,
            forall|j: int| 0 <= j < i ==> (#[trigger] r@[j])@ == roles@[j].name_text(),
        decreases roles@.len() - i,
    {
        r.push(roles[i].name().to_owned());
        i += 1;
    }
    assert(crate::transactions::string_views(r@) =~= role_names(roles@));
    r
}

/// The bytes that a node signs to bind its transport address and its roles to
/// its key.
pub open spec fn binding_bytes(
    rhash: Seq<u8>,
    requested_type: NodeRegistryType,
    requester_types: Seq<NodeRegistryType>,
) -> Seq<u8> {
    crate::encoding::packed_binding(rhash, requested_type.name_text(), role_names(requester_types))
}

/// The bytes that a node signs to bind its transport address and its roles to
/// its key.
pub fn binding_payload(
    rhash: &[u8; 16],
    requested_type: NodeRegistryType,
    requester_types: &[NodeRegistryType],
) -> (r: Vec<u8>)
    ensures
        r@ == binding_bytes(rhash@, requested_type, requester_types@),
{
    pack_binding(rhash, requested_type.name(), &list_role_names(requester_types))
}

/// Every role stands at its own position in the list of all roles, and that list
/// holds nothing else.
pub proof fn every_role_has_its_place(role: NodeRegistryType, i: int)
    requires
        0 <= i < all_roles().len(),
    ensures
        role.position() < all_roles().len(),
        all_roles()[role.position() as int] == role,
        all_roles()[i] == role ==> i == role.position(),
{
}

/// Roles are told apart by their names, alone and in lists.
pub proof fn names_tell_roles(
    a: NodeRegistryType,
    b: NodeRegistryType,
    roles1: Seq<NodeRegistryType>,
    roles2: Seq<NodeRegistryType>,
)
    ensures
        a.name_text() == b.name_text() ==> a == b,
        role_names(roles1) == role_names(roles2) ==> roles1 == roles2,
{
    lemma_names_differ(a, b);
    if role_names(roles1) == role_names(roles2) {
        assert(roles1.len() == role_names(roles1).len());
        assert(roles2.len() == role_names(roles2).len());
        assert forall|i: int| 0 <= i < roles1.len() implies roles1[i] == roles2[i] by {
            assert(role_names(roles1)[i] == roles1[i].name_text());
            assert(role_names(roles2)[i] == roles2[i].name_text());
            lemma_names_differ(roles1[i], roles2[i]);
        }
        assert(roles1 =~= roles2);
    }
}

proof fn lemma_names_differ(a: NodeRegistryType, b: NodeRegistryType)
    ensures
        a.name_text() == b.name_text() ==> a == b,
{
    reveal_strlit("Committer");
    reveal_strlit("Sentinel");
    reveal_strlit("Executor");
    reveal_strlit("Finalizer");
    reveal_strlit("Archiver");
    assert("Committer"@[0] == 'C');
    assert("Sentinel"@[0] == 'S');
    assert("Executor"@[0] == 'E');
    assert("Finalizer"@[0] == 'F');
    assert("Archiver"@[0] == 'A');
}

/// The names of roles are short.
pub proof fn role_names_are_short(roles: Seq<NodeRegistryType>)
    requires
        roles.len() <= u32::MAX,
    ensures
        forall|role: NodeRegistryType|
            crate::encoding::short_str(#[trigger] role.name_text()),
        crate::encoding::short_names(role_names(roles)),
{
    reveal_strlit("Committer");
    reveal_strlit("Sentinel");
    reveal_strlit("Executor");
    reveal_strlit("Finalizer");
    reveal_strlit("Archiver");
    assert forall|role: NodeRegistryType| crate::encoding::short_str(
        #[trigger] role.name_text(),
    ) by {
        vstd::utf8::is_ascii_chars_encode_utf8(role.name_text());
    }
}

/// A binding names the address, the requested role and the role list: bindings
/// that differ in any of the three are signed over different bytes.
pub proof fn bindings_name_address_and_roles(
    rhash1: Seq<u8>,
    requested1: NodeRegistryType,
    roles1: Seq<NodeRegistryType>,
    rhash2: Seq<u8>,
    requested2: NodeRegistryType,
    roles2: Seq<NodeRegistryType>,
)
    requires
        rhash1.len() == 16,
        rhash2.len() == 16,
        roles1.len() <= u32::MAX,
        roles2.len() <= u32::MAX,
        binding_bytes(rhash1, requested1, roles1) == binding_bytes(rhash2, requested2, roles2),
    ensures
        rhash1 == rhash2,
        requested1 == requested2,
        roles1 == roles2,
{
    role_names_are_short(roles1);
    role_names_are_short(roles2);
    crate::encoding::bindings_are_readable(
        rhash1,
        requested1.name_text(),
        role_names(roles1),
        rhash2,
        requested2.name_text(),
        role_names(roles2),
    );
    names_tell_roles(requested1, requested2, roles1, roles2);
}

/// Control-plane request types.
#[derive(Debug)]
pub enum NodeRequestType {
    Register,
    Request,
    Heartbeat,
    /// Reply to a `Register`. On accept `responder_key` is the responder's
    /// Ed25519 key and `reason` is empty; else `reason` says why not.
    RegisterAck {
        accepted: bool,
        node_type: NodeRegistryType,
        responder_key: Vec<u8>,
        reason: String,
    },
}

#[derive(Debug)]
pub enum RegistrationBatch {
    Add(Vec<Registration>),
    Remove(Vec<Registration>),
}

#[derive(Debug)]
pub struct Registration {
    pub node_key: Vec<u8>,
    /// Transport address of the registered node
    pub rhash: [u8; 16],
    pub node_types: Vec<NodeRegistryType>,
}

impl Registration {
    pub fn for_add(key: Vec<u8>, rhash: [u8; 16], types: Vec<NodeRegistryType>) -> (r: Self)
        ensures
            r == (Registration { node_key: key, rhash, node_types: types }),
    {
        Registration { node_key: key, rhash, node_types: types }
    }

    pub fn for_removal(key: Vec<u8>, rhash: [u8; 16], types: Vec<NodeRegistryType>) -> (r: Self)
        ensures
            r == (Registration { node_key: key, rhash, node_types: types }),
    {
        Registration { node_key: key, rhash, node_types: types }
    }
}

#[derive(Debug)]
pub enum RegistrationBatchResult {
    Success,
    Failure(NodeRegistrationError),
}

/// What a registry knows of a node.
#[derive(Debug)]
pub struct NodeRegistryNode {
    /// Transport address of the node
    pub rhash: [u8; 16],
    /// When anything was last heard from the node, in milliseconds
    pub last_seen_millis: u64,
    /// The node's own binding from its registration; empty where it did not
    /// register here, so that it cannot be vouched for
    pub directory_signature: Vec<u8>,
    /// The role that the binding names
    pub directory_requested_type: NodeRegistryType,
    /// The role set that the binding names
    pub directory_node_types: Vec<NodeRegistryType>,
}

/// What a registry knows of a node, by value.
#[verifier::ext_equal]
pub struct NodeRecord {
    pub rhash: Seq<u8>,
    pub last_seen_millis: u64,
    pub directory_signature: Seq<u8>,
    pub directory_requested_type: NodeRegistryType,
    pub directory_node_types: Seq<NodeRegistryType>,
}

impl View for NodeRegistryNode {
    type V = NodeRecord;

    open spec fn view(&self) -> NodeRecord {
        NodeRecord {
            rhash: self.rhash@,
            last_seen_millis: self.last_seen_millis,
            directory_signature: self.directory_signature@,
            directory_requested_type: self.directory_requested_type,
            directory_node_types: self.directory_node_types@,
        }
    }
}

/// A node that did not register here: nothing to vouch for it with.
pub open spec fn unvouched(rhash: Seq<u8>, now_millis: u64) -> NodeRecord {
    NodeRecord {
        rhash,
        last_seen_millis: now_millis,
        directory_signature: Seq::empty(),
        directory_requested_type: NodeRegistryType::Archiver,
        directory_node_types: Seq::empty(),
    }
}

/// A node that did not register here is known by its address and by when it was
/// heard of, and has no signature to show.
pub proof fn unvouched_nodes_have_no_binding(rhash: Seq<u8>, now_millis: u64)
    ensures
        unvouched(rhash, now_millis).rhash == rhash,
        unvouched(rhash, now_millis).last_seen_millis == now_millis,
        unvouched(rhash, now_millis).directory_signature.len() == 0,
        unvouched(rhash, now_millis).directory_node_types.len() == 0,
{
}

impl NodeRegistryNode {
    /// A node without a binding, seen at `now_millis`.
    pub fn new(rhash: [u8; 16], now_millis: u64) -> (r: Self)
        ensures
            r@ == unvouched(rhash@, now_millis),
    {
        NodeRegistryNode {
            rhash,
            last_seen_millis: now_millis,
            directory_signature: Vec::new(),
            directory_requested_type: NodeRegistryType::Archiver,
            directory_node_types: Vec::new(),
        }
    }

    /// A node that registered directly, with its own binding.
    pub fn with_binding(
        rhash: [u8; 16],
        now_millis: u64,
        directory_signature: Vec<u8>,
        directory_requested_type: NodeRegistryType,
        directory_node_types: Vec<NodeRegistryType>,
    ) -> (r: Self)
        ensures
            r@ == (NodeRecord {
                rhash: rhash@,
                last_seen_millis: now_millis,
                directory_signature: directory_signature@,
                directory_requested_type,
                directory_node_types: directory_node_types@,
            }),
    {
        NodeRegistryNode {
            rhash,
            last_seen_millis: now_millis,
            directory_signature,
            directory_requested_type,
            directory_node_types,
        }
    }
}

/// A control-plane request. The sender claims a transport address, and its
/// signature binds that address and its roles to its key.
#[derive(Debug)]
pub struct NodeRequest {
    pub requester_key: Vec<u8>,
    /// Claimed transport address of the sender
    pub requester_rhash: [u8; 16],
    pub request_type: NodeRequestType,
    pub requester_types: Vec<NodeRegistryType>,
    pub requested_type: NodeRegistryType,
    pub binding_signature: Vec<u8>,
}

#[derive(Debug)]
pub struct NodeRegistryResponse {
    pub responder_key: Vec<u8>,
    pub responder_rhash: [u8; 16],
    pub registry_type: NodeRegistryType,
    pub entries: Vec<NodeRegistryEntry>,
    /// The responder's signature over entries, registry type and address
    pub signature: Vec<u8>,
}

/// Data-plane registration request.
#[derive(Debug)]
pub struct NodeRegistryRequest {
    pub requester_key: Vec<u8>,
    /// Transport address of the requester
    pub rhash: [u8; 16],
    pub requester_types: Vec<NodeRegistryType>,
    pub requested_type: NodeRegistryType,
    pub binding_signature: Vec<u8>,
}

impl NodeRegistryRequest {
    pub fn new(
        key: Vec<u8>,
        rhash: [u8; 16],
        binding_signature: Vec<u8>,
        requester_types: Vec<NodeRegistryType>,
        requested_type: NodeRegistryType,
    ) -> (r: Self)
        ensures
            r == (NodeRegistryRequest {
                requester_key: key,
                rhash,
                requester_types,
                requested_type,
                binding_signature,
            }),
    {
        NodeRegistryRequest {
            requester_key: key,
            rhash,
            binding_signature,
            requester_types,
            requested_type,
        }
    }
}

/// A node as a directory lists it, with that node's own binding.
#[derive(Debug)]
pub struct NodeRegistryEntry {
    pub node_key: Vec<u8>,
    pub node_rhash: [u8; 16],
    /// The listed node's signature over its own address and roles
    pub signature: Vec<u8>,
    pub requested_type: NodeRegistryType,
    pub node_types: Vec<NodeRegistryType>,
}

/// A directory entry by value: key, address, signature, role, role set.
pub open spec fn entry_record(e: NodeRegistryEntry) -> (
    Seq<u8>,
    Seq<u8>,
    Seq<u8>,
    Seq<char>,
    Seq<Seq<char>>,
) {
    (
        e.node_key@,
        e.node_rhash@,
        e.signature@,
        e.requested_type.name_text(),
        role_names(e.node_types@),
    )
}

/// Directory entries by value.
pub open spec fn entry_records(entries: Seq<NodeRegistryEntry>) -> Seq<
    (Seq<u8>, Seq<u8>, Seq<u8>, Seq<char>, Seq<Seq<char>>),
> {
    Seq::new(entries.len(), |i: int| entry_record(entries[i]))
}

/// Directory entries by value tell everything that an entry holds.
pub proof fn entry_records_tell_entries(a: Seq<NodeRegistryEntry>, b: Seq<NodeRegistryEntry>, i: int)
    requires
        entry_records(a) == entry_records(b),
        0 <= i < a.len(),
    ensures
        a.len() == b.len(),
        a[i].node_key@ == b[i].node_key@,
        a[i].node_rhash@ == b[i].node_rhash@,
        a[i].signature@ == b[i].signature@,
        a[i].requested_type == b[i].requested_type,
        a[i].node_types@ == b[i].node_types@,
{
    assert(a.len() == entry_records(a).len());
    assert(b.len() == entry_records(b).len());
    assert(entry_records(a)[i] == entry_record(a[i]));
    assert(entry_records(b)[i] == entry_record(b[i]));
    names_tell_roles(
        a[i].requested_type,
        b[i].requested_type,
        a[i].node_types@,
        b[i].node_types@,
    );
}

/// Wire packet: a control-plane request, data-plane bytes, or both.
#[derive(Debug)]
pub struct NetworkPacket {
    pub control: Option<NodeRequest>,
    pub data: Option<Vec<u8>>,
}

#[derive(Debug)]
pub struct NodeBootstrapError {
    pub message: String,
}

impl NodeBootstrapError {
    pub fn from_io_error(error: std::io::Error) -> (r: NodeBootstrapError)
        ensures
            vstd::string::to_string_from_display_ensures::<std::io::Error>(&error, r.message),
    {
        NodeBootstrapError { message: error.to_string() }
    }
}

#[derive(Debug)]
pub enum NodeRegistrationError {
    FromUnderlying(String),
    Unknown,
}

} // verus!
