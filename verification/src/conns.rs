//! Connections: ports, targets, length-prefixed frames and their errors.
pub mod factories;
pub mod senders;
pub mod uds;

use crate::bytes::{append_bytes, to_be_bytes, u32_from_be_bytes};
use crate::node::NodeRegistryType;
use crate::text::{decimal_string, quote, wrap};
use vstd::prelude::*;
use vstd::string::StringExecFns;

verus! {

/// The largest frame that is read: 16 MB.
pub const MAX_FRAME_SIZE: usize = 16 * 1024 * 1024;

pub const HEARTBEAT_PORT: u16 = 42000;

pub const COMMITTER_PORT: u16 = 42001;

pub const SENTINEL_PORT: u16 = 42002;

pub const EXECUTOR_PORT: u16 = 42003;

pub const FINALIZER_PORT: u16 = 42004;

pub const ARCHIVER_PORT: u16 = 42005;

pub const COMMITTER_PORT_INTERNAL: u16 = 50000;

pub const SENTINEL_PORT_INTERNAL: u16 = 50001;

pub const EXECUTOR_PORT_INTERNAL: u16 = 50002;

pub const FINALIZER_PORT_INTERNAL: u16 = 50003;

pub const ARCHIVER_PORT_INTERNAL: u16 = 50004;

/// The port on which nodes of a type talk to processes on their own host.
pub open spec fn internal_port(node_type: NodeRegistryType) -> u16 {
    match node_type {
        NodeRegistryType::Committer => COMMITTER_PORT_INTERNAL,
        NodeRegistryType::Archiver => ARCHIVER_PORT_INTERNAL,
        NodeRegistryType::Sentinel => SENTINEL_PORT_INTERNAL,
        NodeRegistryType::Executor => EXECUTOR_PORT_INTERNAL,
        NodeRegistryType::Finalizer => FINALIZER_PORT_INTERNAL,
    }
}

/// The port on which nodes of a type talk to other nodes.
pub open spec fn external_port(node_type: NodeRegistryType) -> u16 {
    match node_type {
        NodeRegistryType::Committer => COMMITTER_PORT,
        NodeRegistryType::Archiver => ARCHIVER_PORT,
        NodeRegistryType::Sentinel => SENTINEL_PORT,
        NodeRegistryType::Executor => EXECUTOR_PORT,
        NodeRegistryType::Finalizer => FINALIZER_PORT,
    }
}

pub fn get_internal_port(node_type: &NodeRegistryType) -> (r: u16)
    ensures
        r == internal_port(*node_type),
{
    match node_type {
        NodeRegistryType::Committer => COMMITTER_PORT_INTERNAL,
        NodeRegistryType::Archiver => ARCHIVER_PORT_INTERNAL,
        NodeRegistryType::Sentinel => SENTINEL_PORT_INTERNAL,
        NodeRegistryType::Executor => EXECUTOR_PORT_INTERNAL,
        NodeRegistryType::Finalizer => FINALIZER_PORT_INTERNAL,
    }
}

pub fn get_external_port(node_type: &NodeRegistryType) -> (r: u16)
    ensures
        r == external_port(*node_type),
{
    match node_type {
        NodeRegistryType::Committer => COMMITTER_PORT,
        NodeRegistryType::Archiver => ARCHIVER_PORT,
        NodeRegistryType::Sentinel => SENTINEL_PORT,
        NodeRegistryType::Executor => EXECUTOR_PORT,
        NodeRegistryType::Finalizer => FINALIZER_PORT,
    }
}

/// No two node types share a port, internal or external, and no internal port
/// is an external one.
pub proof fn ports_are_distinct(a: NodeRegistryType, b: NodeRegistryType)
    ensures
        a != b ==> internal_port(a) != internal_port(b),
        a != b ==> external_port(a) != external_port(b),
        internal_port(a) != external_port(b),
        external_port(a) != HEARTBEAT_PORT,
{
}

/// The ports follow the order of the roles: from 42001 on between nodes, from
/// 50000 on within a host.
pub proof fn ports_follow_the_role_order(role: NodeRegistryType)
    ensures
        external_port(role) == 42001 + role.position(),
        internal_port(role) == 50000 + role.position(),
{
}

/// How an oversized frame is reported.
pub open spec fn oversize_text(length: nat) -> Seq<char> {
    "Frame size "@ + crate::text::decimal(length) + " exceeds maximum "@ + crate::text::decimal(
        MAX_FRAME_SIZE as nat,
    )
}

/// The length that a frame header announces, refused above the limit.
pub fn frame_length(header: &[u8; 4]) -> (r: Result<usize, ConnError>)
    ensures
        match r {
            Ok(length) => length == crate::bytes::be_value(header@) && length <= MAX_FRAME_SIZE,
            Err(ConnError::MalformedData(msg)) => crate::bytes::be_value(header@) > MAX_FRAME_SIZE
                && msg@ == oversize_text(crate::bytes::be_value(header@)),
            Err(_) => false,
        },
{
    let length = u32_from_be_bytes(header);
    if length as usize > MAX_FRAME_SIZE {
        let mut msg = wrap("Frame size ", &decimal_string(length as u64), " exceeds maximum ");
        msg.append(&decimal_string(MAX_FRAME_SIZE as u64));
        Err(ConnError::MalformedData(msg))
    } else {
        Ok(length as usize)
    }
}

/// The frame of a message on a connection: its length in four big-endian bytes,
/// then the message.
pub open spec fn message_frame(data: Seq<u8>) -> Seq<u8> {
    crate::bytes::be_bytes(data.len(), 4) + data
}

/// What is framed is read back: the header announces the length of what follows,
/// which is the message, and different messages have different frames.
pub proof fn frames_are_read_back(a: Seq<u8>, b: Seq<u8>)
    requires
        a.len() <= u32::MAX,
    ensures
        message_frame(a).len() == a.len() + 4,
        crate::bytes::be_value(message_frame(a).subrange(0, 4)) == a.len(),
        message_frame(a).subrange(4, message_frame(a).len() as int) == a,
        message_frame(a) == message_frame(b) ==> a == b,
{
    crate::bytes::lemma_be_bytes_len(a.len(), 4);
    crate::bytes::lemma_be_bytes_len(b.len(), 4);
    assert(message_frame(a).subrange(0, 4) =~= crate::bytes::be_bytes(a.len(), 4));
    assert(message_frame(a).subrange(4, message_frame(a).len() as int) =~= a);
    assert(message_frame(b).subrange(4, message_frame(b).len() as int) =~= b);
    assert(vstd::arithmetic::power::pow(256, 4) == 0x1_0000_0000) by {
        reveal_with_fuel(vstd::arithmetic::power::pow, 5);
    }
    crate::bytes::lemma_be_round_trip(a.len(), 4);
}

/// Frame one message of a connection. A reader of the header of a frame within
/// the limit learns the length of the message that follows.
pub fn frame_message(data: &[u8]) -> (r: Vec<u8>)
    ensures
        r@ == message_frame(data@),
        data@.len() <= u32::MAX ==> r@.len() == 4 + data@.len() && crate::bytes::be_value(
            r@.take(4),
        ) == data@.len() && r@.skip(4) == data@,
{
    let mut frame = to_be_bytes(data.len() as u64, 4);
    append_bytes(&mut frame, data);
    proof {
        let n = data@.len();
        crate::bytes::lemma_be_bytes_len(n, 4);
        assert(frame@.take(4) =~= crate::bytes::be_bytes(n, 4));
        assert(frame@.skip(4) =~= data@);
        if n <= u32::MAX {
            assert(vstd::arithmetic::power::pow(256, 4) == 0x1_0000_0000) by {
                reveal_with_fuel(vstd::arithmetic::power::pow, 5);
            }
            crate::bytes::lemma_be_round_trip(n, 4);
        }
    }
    frame
}

/// What a read amounts to: the bytes that arrived, or the failure.
pub open spec fn read_outcome<T>(outcome: Result<T, String>) -> Result<T, ConnError> {
    match outcome {
        Ok(data) => Ok(data),
        Err(msg) => Err(ConnError::ReadError(Some(msg))),
    }
}

/// What a read amounts to: the bytes that arrived, or the failure.
pub fn frame_read(outcome: Result<Vec<u8>, String>) -> (r: Result<Vec<u8>, ConnError>)
    ensures
        r == read_outcome(outcome),
{
    match outcome {
        Ok(data) => Ok(data),
        Err(msg) => Err(ConnError::ReadError(Some(msg))),
    }
}

/// `r` is what comes of a frame whose header was read: an oversized one is
/// refused unread, else the announced number of bytes is read.
pub open spec fn frame_received<B: FnOnce(usize) -> Result<Vec<u8>, String>>(
    header: Seq<u8>,
    read_body: B,
    r: Result<Vec<u8>, ConnError>,
) -> bool {
    let announced = crate::bytes::be_value(header);
    if announced > MAX_FRAME_SIZE {
        r matches Err(ConnError::MalformedData(msg)) && msg@ == oversize_text(announced)
    } else {
        exists|length: usize, body: Result<Vec<u8>, String>|
            length == announced && #[trigger] call_ensures(read_body, (length,), body) && r
                == read_outcome(body)
    }
}

/// Frames of up to sixteen mebibytes are read in full and handed out as they came
/// in; a failed read is reported.
pub proof fn frames_within_the_limit_are_read<B: FnOnce(usize) -> Result<Vec<u8>, String>>(
    header: Seq<u8>,
    read_body: B,
    r: Result<Vec<u8>, ConnError>,
    body: Result<Vec<u8>, String>,
)
    requires
        frame_received(header, read_body, r),
        crate::bytes::be_value(header) <= 16_777_216,
        forall|length: usize, end: Result<Vec<u8>, String>|
            length == crate::bytes::be_value(header) && #[trigger] call_ensures(
                read_body,
                (length,),
                end,
            ) ==> end == body,
    ensures
        match body {
            Ok(data) => r == Ok::<Vec<u8>, ConnError>(data),
            Err(msg) => r == Err::<Vec<u8>, ConnError>(ConnError::ReadError(Some(msg))),
        },
{
}

/// Larger frames are refused, whatever a read of them would give.
pub proof fn frames_beyond_the_limit_are_refused<B: FnOnce(usize) -> Result<Vec<u8>, String>>(
    header: Seq<u8>,
    read_body: B,
    r: Result<Vec<u8>, ConnError>,
)
    requires
        frame_received(header, read_body, r),
        crate::bytes::be_value(header) > 16_777_216,
    ensures
        r matches Err(ConnError::MalformedData(_)),
{
}

/// Read one frame: four bytes of header, then as many as they announce.
pub fn get_data<
    H: FnOnce() -> Result<[u8; 4], String>,
    B: FnOnce(usize) -> Result<Vec<u8>, String>,
>(read_header: H, read_body: B) -> (r: Result<Vec<u8>, ConnError>)
    requires
        call_requires(read_header, ()),
        forall|length: usize|
            length <= MAX_FRAME_SIZE ==> #[trigger] call_requires(read_body, (length,)),
    ensures
        exists|header: Result<[u8; 4], String>| #[trigger]
            call_ensures(read_header, (), header) && match header {
                Ok(bytes) => frame_received(bytes@, read_body, r),
                Err(msg) => r == read_outcome::<Vec<u8>>(Err(msg)),
            },
{
    let header = read_header();
    match header {
        Ok(bytes) => match frame_length(&bytes) {
            Ok(length) => {
                let body = read_body(length);
                assert(call_ensures(read_body, (length,), body));
                frame_read(body)
            },
            Err(e) => Err(e),
        },
        Err(msg) => Err(ConnError::ReadError(Some(msg))),
    }
}

/// Where a connection goes: to this host or to another.
#[derive(Debug)]
pub enum ConnTarget {
    Local(LocalTarget),
    Remote(Endpoint),
}

/// A network address as its host part and its port.
#[derive(Debug)]
pub struct Endpoint {
    pub host: String,
    pub port: u16,
}

#[derive(Debug)]
pub enum LocalTarget {
    Unix(String),
    Tcp(Endpoint),
}

/// Two targets name the same place.
pub open spec fn same_target(a: ConnTarget, b: ConnTarget) -> bool {
    match (a, b) {
        (ConnTarget::Remote(x), ConnTarget::Remote(y)) => x.host == y.host && x.port == y.port,
        (ConnTarget::Local(LocalTarget::Unix(x)), ConnTarget::Local(LocalTarget::Unix(y))) => x == y,
        (ConnTarget::Local(LocalTarget::Tcp(x)), ConnTarget::Local(LocalTarget::Tcp(y))) => x.host
            == y.host && x.port == y.port,
        _ => false,
    }
}

/// A copy of a target is of the same kind and names the same path, or the same
/// host and port.
pub proof fn copied_targets_name_the_same_place(a: ConnTarget, b: ConnTarget)
    requires
        same_target(a, b),
    ensures
        a is Remote <==> b is Remote,
        a matches ConnTarget::Remote(x) ==> (b matches ConnTarget::Remote(y) && x.host@ == y.host@
            && x.port == y.port),
        a matches ConnTarget::Local(LocalTarget::Tcp(x)) ==> (b matches ConnTarget::Local(
            LocalTarget::Tcp(y),
        ) && x.host@ == y.host@ && x.port == y.port),
        a matches ConnTarget::Local(LocalTarget::Unix(x)) ==> (b matches ConnTarget::Local(
            LocalTarget::Unix(y),
        ) && x@ == y@),
{
}

impl Clone for ConnTarget {
    fn clone(&self) -> (r: Self)
        ensures
            same_target(r, *self),
    {
        match self {
            ConnTarget::Remote(addr) => ConnTarget::Remote(
                Endpoint { host: addr.host.clone(), port: addr.port },
            ),
            ConnTarget::Local(LocalTarget::Unix(path)) => ConnTarget::Local(
                LocalTarget::Unix(path.clone()),
            ),
            ConnTarget::Local(LocalTarget::Tcp(addr)) => ConnTarget::Local(
                LocalTarget::Tcp(Endpoint { host: addr.host.clone(), port: addr.port }),
            ),
        }
    }
}

#[derive(Debug)]
pub enum ConnError {
    IO(String),
    MalformedData(String),
    CouldNotEstablishStream,
    WriteError(Option<String>),
    ReadError(Option<String>),
    ConnectionRejectedByRemote,
    /// Cryptographic decryption failure on a network-reachable path
    DecryptError(String),
    /// Blocking read or write exceeded its timeout (hung peer)
    Timeout(String),
    /// A frame failed shared-secret HMAC verification
    Unauthenticated(String),
}

/// An optional message as it is shown in an error.
pub open spec fn optional_text(msg: Option<String>) -> Seq<char> {
    match msg {
        Some(s) => "Some("@ + crate::text::quoted(s@) + ")"@,
        None => "None"@,
    }
}

fn optional_string(msg: &Option<String>) -> (r: String)
    ensures
        r@ == optional_text(*msg),
{
    match msg {
        Some(s) => wrap("Some(", &quote(s), ")"),
        None => "None".to_owned(),
    }
}

impl ConnError {
    /// How the error reads.
    pub open spec fn text(&self) -> Seq<char> {
        match self {
            ConnError::IO(msg) => "IO("@ + msg@ + ")"@,
            ConnError::MalformedData(msg) => "MalformedData("@ + msg@ + ")"@,
            ConnError::CouldNotEstablishStream => "CouldNotEstablishStream"@,
            ConnError::WriteError(msg) => "WriteError("@ + optional_text(*msg) + ")"@,
            ConnError::ReadError(msg) => "ReadError("@ + optional_text(*msg) + ")"@,
            ConnError::ConnectionRejectedByRemote => "ConnectionRejectedByRemote"@,
            ConnError::DecryptError(msg) => "DecryptError("@ + crate::text::quoted(msg@) + ")"@,
            ConnError::Timeout(msg) => "Timeout("@ + msg@ + ")"@,
            ConnError::Unauthenticated(msg) => "Unauthenticated("@ + msg@ + ")"@,
        }
    }

    /// The error as text.
    pub fn to_string(&self) -> (r: String)
        ensures
            r@ == self.text(),
    {
        match self {
            ConnError::IO(msg) => wrap("IO(", msg, ")"),
            ConnError::MalformedData(msg) => wrap("MalformedData(", msg, ")"),
            ConnError::CouldNotEstablishStream => "CouldNotEstablishStream".to_owned(),
            ConnError::WriteError(msg) => wrap("WriteError(", &optional_string(msg), ")"),
            ConnError::ReadError(msg) => wrap("ReadError(", &optional_string(msg), ")"),
            ConnError::ConnectionRejectedByRemote => "ConnectionRejectedByRemote".to_owned(),
            ConnError::DecryptError(msg) => wrap("DecryptError(", &quote(msg), ")"),
            ConnError::Timeout(msg) => wrap("Timeout(", msg, ")"),
            ConnError::Unauthenticated(msg) => wrap("Unauthenticated(", msg, ")"),
        }
    }
}

} // verus!
