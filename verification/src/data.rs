//! The data service: operations, requests, errors and providers.
use crate::bytes::{copy_bytes, to_be_bytes};
use crate::conns::factories::{ConnFactory, SenderPlan};
use crate::conns::{ConnError, ConnTarget, Endpoint, LocalTarget};
use crate::epoch::{ExecutorSet, StakeSet};
use crate::keyed_store::KeyedStore;
use crate::text::{decimal_string, wrap};
use crate::tokens::Token;
use crate::user::User;
use std::collections::HashMap;
use vstd::prelude::*;

verus! {

broadcast use vstd::std_specs::hash::group_hash_axioms;

pub const DATA_TCP_PORT: u16 = 55555;

pub const DATA_UNIX_PATH: &'static str = "data";

#[derive(Debug)]
pub enum DataOp {
    Get(GetOp),
    Save(SaveOp),
}

impl DataOp {
    /// How the operation reads.
    pub open spec fn text(&self) -> Seq<char> {
        match self {
            DataOp::Get(op) => "Get("@ + op.text() + ")"@,
            DataOp::Save(op) => "Save("@ + op.text() + ")"@,
        }
    }

    /// The operation as text.
    pub fn to_string(&self) -> (r: String)
        ensures
            r@ == self.text(),
    {
        match self {
            DataOp::Get(op) => wrap("Get(", &op.to_string(), ")"),
            DataOp::Save(op) => wrap("Save(", &op.to_string(), ")"),
        }
    }
}

#[derive(Debug, Clone, Copy)]
pub enum GetOp {
    Token,
    Data,
    User,
    StakeSnapshot(u64),
    ExecutorSet(u64),
}

impl GetOp {
    /// How the operation reads.
    pub open spec fn text(&self) -> Seq<char> {
        match self {
            GetOp::Token => "Token"@,
            GetOp::Data => "Data"@,
            GetOp::User => "User"@,
            GetOp::StakeSnapshot(epoch) => "StakeSnapshot("@ + crate::text::decimal(*epoch as nat)
                + ")"@,
            GetOp::ExecutorSet(epoch) => "ExecutorSet("@ + crate::text::decimal(*epoch as nat)
                + ")"@,
        }
    }

    /// The operation as text.
    pub fn to_string(&self) -> (r: String)
        ensures
            r@ == self.text(),
    {
        match self {
            GetOp::Token => "Token".to_owned(),
            GetOp::Data => "Data".to_owned(),
            GetOp::User => "User".to_owned(),
            GetOp::StakeSnapshot(epoch) => wrap("StakeSnapshot(", &decimal_string(*epoch), ")"),
            GetOp::ExecutorSet(epoch) => wrap("ExecutorSet(", &decimal_string(*epoch), ")"),
        }
    }
}

#[derive(Debug)]
pub enum SaveOp {
    Token(Token),
    Data(Vec<u8>),
    User(User),
    StakeSnapshot(StakeSet),
    ExecutorSet(ExecutorSet),
}

impl SaveOp {
    /// How the operation reads.
    pub open spec fn text(&self) -> Seq<char> {
        match self {
            SaveOp::Token(_) => "Token"@,
            SaveOp::Data(_) => "Data"@,
            SaveOp::User(_) => "User"@,
            SaveOp::StakeSnapshot(_) => "StakeSnapshot"@,
            SaveOp::ExecutorSet(_) => "ExecutorSet"@,
        }
    }

    /// The operation as text.
    pub fn to_string(&self) -> (r: String)
        ensures
            r@ == self.text(),
    {
        let name = match self {
            SaveOp::Token(_) => "Token",
            SaveOp::Data(_) => "Data",
            SaveOp::User(_) => "User",
            SaveOp::StakeSnapshot(_) => "StakeSnapshot",
            SaveOp::ExecutorSet(_) => "ExecutorSet",
        };
        name.to_owned()
    }
}

#[derive(Debug)]
pub enum DataError {
    FromStore(String),
    SerializationError(std::io::Error),
    DeserializationError(std::io::Error),
    DataNotFound,
    StoreNotFound,
    CacheError,
    Poisoned,
    InvalidOperation(DataOp),
    InvalidSignature,
    /// Cryptographic error encountered during message processing
    CryptoError(String),
    /// The data service did not respond within the connection read/write bound
    Timeout(String),
    /// A data-channel response failed shared-secret HMAC verification
    PeerUnauthenticated(String),
}

/// `text` is how an I/O error reads, between a name and a closing bracket.
pub open spec fn shows_io(e: std::io::Error, name: Seq<char>, text: Seq<char>) -> bool {
    exists|s: String| #[trigger]
        vstd::string::to_string_from_display_ensures::<std::io::Error>(&e, s) && text == name + s@
            + ")"@
}

impl DataError {
    /// Whether `text` is how the error reads.
    pub open spec fn shows(&self, text: Seq<char>) -> bool {
        match self {
            DataError::FromStore(msg) => text == "FromStore("@ + msg@ + ")"@,
            DataError::SerializationError(e) => shows_io(*e, "SerializationError("@, text),
            DataError::DeserializationError(e) => shows_io(*e, "DeserializationError("@, text),
            DataError::DataNotFound => text == "DataNotFound"@,
            DataError::StoreNotFound => text == "StoreNotFound"@,
            DataError::CacheError => text == "CacheError"@,
            DataError::Poisoned => text == "Poisoned"@,
            DataError::InvalidOperation(op) => text == "InvalidOperation("@ + op.text() + ")"@,
            DataError::InvalidSignature => text == "InvalidSignature"@,
            DataError::CryptoError(msg) => text == "CryptoError("@ + msg@ + ")"@,
            DataError::Timeout(msg) => text == "Timeout("@ + msg@ + ")"@,
            DataError::PeerUnauthenticated(msg) => text == "PeerUnauthenticated("@ + msg@ + ")"@,
        }
    }

    /// The error as text.
    pub fn to_string(&self) -> (r: String)
        ensures
            self.shows(r@),
    {
        match self {
            DataError::FromStore(msg) => wrap("FromStore(", msg, ")"),
            DataError::SerializationError(e) => wrap("SerializationError(", &e.to_string(), ")"),
            DataError::DeserializationError(e) => wrap(
                "DeserializationError(",
                &e.to_string(),
                ")",
            ),
            DataError::DataNotFound => "DataNotFound".to_owned(),
            DataError::StoreNotFound => "StoreNotFound".to_owned(),
            DataError::CacheError => "CacheError".to_owned(),
            DataError::Poisoned => "Poisoned".to_owned(),
            DataError::InvalidOperation(op) => wrap("InvalidOperation(", &op.to_string(), ")"),
            DataError::InvalidSignature => "InvalidSignature".to_owned(),
            DataError::CryptoError(msg) => wrap("CryptoError(", msg, ")"),
            DataError::Timeout(msg) => wrap("Timeout(", msg, ")"),
            DataError::PeerUnauthenticated(msg) => wrap("PeerUnauthenticated(", msg, ")"),
        }
    }
}

/// How a data-channel failure is reported: a hung service as `Timeout`, a
/// failed secret check as `PeerUnauthenticated`, anything else as a store error.
pub fn conn_error_to_data_error(err: ConnError) -> (r: DataError)
    ensures
        match err {
            ConnError::Timeout(msg) => r == DataError::Timeout(msg),
            ConnError::Unauthenticated(msg) => r == DataError::PeerUnauthenticated(msg),
            other => r matches DataError::FromStore(msg) && msg@ == other.text(),
        },
{
    match err {
        ConnError::Timeout(msg) => DataError::Timeout(msg),
        ConnError::Unauthenticated(msg) => DataError::PeerUnauthenticated(msg),
        other => DataError::FromStore(other.to_string()),
    }
}

/// Access to the external data store.
pub trait DataProvider: Send + Sync {
    fn get_token(&self, key: &Vec<u8>, partition_id: &str) -> Result<Token, DataError>;

    fn save_token(&mut self, key: &Vec<u8>, token: Token, partition_id: &str) -> Result<
        (),
        DataError,
    >;

    fn get_data(&self, key: &Vec<u8>, partition_id: &str) -> Result<Vec<u8>, DataError>;

    fn save_data(&mut self, key: &Vec<u8>, data: Vec<u8>, partition_id: &str) -> Result<
        (),
        DataError,
    >;

    fn get_user(&self, key: &Vec<u8>, partition_id: &str) -> Result<User, DataError>;

    fn save_user(&mut self, key: &Vec<u8>, user: User, partition_id: &str) -> Result<
        (),
        DataError,
    >;

    /// Retrieve a stake snapshot for a given epoch and partition.
    fn get_stake_snapshot(&self, epoch: u64, partition_id: &str) -> Result<StakeSet, DataError>;

    /// Persist a stake snapshot for a given epoch and partition.
    fn save_stake_snapshot(
        &mut self,
        epoch: u64,
        snapshot: StakeSet,
        partition_id: &str,
    ) -> Result<(), DataError>;

    /// Retrieve an executor set for a given epoch and partition.
    fn get_executor_set(&self, epoch: u64, partition_id: &str) -> Result<ExecutorSet, DataError>;

    /// Persist an executor set for a given epoch and partition.
    fn save_executor_set(&mut self, epoch: u64, set: ExecutorSet, partition_id: &str) -> Result<
        (),
        DataError,
    >;

    /// Current chain-tip hash for a token partition, `None` where it is unknown.
    fn latest_block_hash(&self, _partition_id: &str) -> (r: Result<Option<Vec<u8>>, DataError>)
        default_ensures
            r == Ok::<Option<Vec<u8>>, DataError>(None),
    {
        Ok(None)
    }
}

/// A request to the data service.
#[derive(Debug)]
pub struct DataRequest {
    pub key: Vec<u8>,
    pub op: DataOp,
    pub partition_id: String,
}

/// `request` asks for an operation on a key of a partition.
pub open spec fn asks_for(
    request: DataRequest,
    key: Seq<u8>,
    op: DataOp,
    partition: Seq<char>,
) -> bool {
    &&& request.key@ == key
    &&& request.op == op
    &&& request.partition_id@ == partition
}

impl DataRequest {
    pub fn new(key: &Vec<u8>, op: DataOp, partition: &str) -> (r: Self)
        ensures
            asks_for(r, key@, op, partition@),
    {
        DataRequest { key: copy_bytes(key), op, partition_id: partition.to_owned() }
    }
}

/// The key under which the snapshots of an epoch are stored.
pub fn epoch_key(epoch: u64) -> (r: Vec<u8>)
    ensures
        r@ == crate::bytes::be_bytes(epoch as nat, 8),
{
    to_be_bytes(epoch, 8)
}

/// How far an exchange with the data service came.
#[derive(Debug)]
pub enum Exchange<T> {
    /// The request could not be encoded
    NotSerialized(std::io::Error),
    /// Sending it or waiting for the response failed
    Failed(ConnError),
    /// The response could not be decoded
    NotDeserialized(std::io::Error),
    /// The decoded response
    Answered(T),
}

/// What an exchange with the data service amounts to.
pub open spec fn amounts_to<T>(exchange: Exchange<T>, r: Result<T, DataError>) -> bool {
    match exchange {
        Exchange::NotSerialized(e) => r == Err::<T, DataError>(DataError::SerializationError(e)),
        Exchange::Failed(ConnError::Timeout(msg)) => r == Err::<T, DataError>(
            DataError::Timeout(msg),
        ),
        Exchange::Failed(ConnError::Unauthenticated(msg)) => r == Err::<T, DataError>(
            DataError::PeerUnauthenticated(msg),
        ),
        Exchange::Failed(other) => r matches Err(DataError::FromStore(msg)) && msg@
            == other.text(),
        Exchange::NotDeserialized(e) => r == Err::<T, DataError>(
            DataError::DeserializationError(e),
        ),
        Exchange::Answered(value) => r == Ok::<T, DataError>(value),
    }
}

/// What an exchange with the data service amounts to.
pub fn exchange_outcome<T>(exchange: Exchange<T>) -> (r: Result<T, DataError>)
    ensures
        amounts_to(exchange, r),
{
    match exchange {
        Exchange::NotSerialized(e) => Err(DataError::SerializationError(e)),
        Exchange::Failed(e) => Err(conn_error_to_data_error(e)),
        Exchange::NotDeserialized(e) => Err(DataError::DeserializationError(e)),
        Exchange::Answered(value) => Ok(value),
    }
}

/// The chain tip of a token that was looked up.
pub open spec fn tip_of(
    token: Result<Token, DataError>,
    r: Result<Option<Vec<u8>>, DataError>,
) -> bool {
    match token {
        Ok(t) => r matches Ok(Some(tip)) && tip@ == crate::blocks::chain_tip(t.blockchain.chain@),
        Err(e) => r == Err::<Option<Vec<u8>>, DataError>(e),
    }
}

/// The chain tip of a token that was looked up.
pub fn looked_up_tip(token: Result<Token, DataError>) -> (r: Result<Option<Vec<u8>>, DataError>)
    ensures
        tip_of(token, r),
{
    match token {
        Ok(token) => Ok(Some(token.blockchain.get_current_chain_state().last_hash_in)),
        Err(e) => Err(e),
    }
}

/// `target` is the default data-service endpoint.
pub open spec fn defaults_to(unix: bool, socket_path: Option<String>, target: ConnTarget) -> bool {
    match target {
        ConnTarget::Local(LocalTarget::Unix(path)) => unix && path@ == (match socket_path {
            Some(given) => given@,
            None => "/tmp/data.sock"@,
        }),
        ConnTarget::Local(LocalTarget::Tcp(addr)) => !unix && addr.host@ == "127.0.0.1"@
            && addr.port == DATA_TCP_PORT,
        ConnTarget::Remote(_) => false,
    }
}

/// The default endpoint never leaves the host: it is a socket exactly where there
/// are Unix sockets, at the path that could be had, and else the loopback address
/// on port 55555.
pub proof fn the_default_endpoint_is_local(
    unix: bool,
    socket_path: Option<String>,
    target: ConnTarget,
)
    requires
        defaults_to(unix, socket_path, target),
    ensures
        target is Local,
        unix <==> (target matches ConnTarget::Local(LocalTarget::Unix(_))),
        unix && socket_path is Some ==> (target matches ConnTarget::Local(LocalTarget::Unix(path))
            && path@ == socket_path->0@),
        !unix ==> (target matches ConnTarget::Local(LocalTarget::Tcp(addr)) && addr.port == 55555
            && addr.host@ == "127.0.0.1"@),
{
}

/// The default data-service endpoint: the socket path where there are Unix
/// sockets, a fixed path in `/tmp` if no socket directory could be had, and the
/// TCP loopback elsewhere.
pub fn default_source(unix: bool, socket_path: Option<String>) -> (r: ConnTarget)
    ensures
        match (unix, socket_path, r) {
            (true, Some(path), ConnTarget::Local(LocalTarget::Unix(p))) => p == path,
            (true, None, ConnTarget::Local(LocalTarget::Unix(p))) => p@ == "/tmp/data.sock"@,
            (false, _, ConnTarget::Local(LocalTarget::Tcp(addr))) => addr.host@ == "127.0.0.1"@
                && addr.port == DATA_TCP_PORT,
            _ => false,
        },
        defaults_to(unix, socket_path, r),
{
    if unix {
        match socket_path {
            Some(path) => ConnTarget::Local(LocalTarget::Unix(path)),
            None => ConnTarget::Local(LocalTarget::Unix("/tmp/data.sock".to_owned())),
        }
    } else {
        ConnTarget::Local(
            LocalTarget::Tcp(Endpoint { host: "127.0.0.1".to_owned(), port: DATA_TCP_PORT }),
        )
    }
}

/// How the data service is reached.
#[derive(Debug)]
pub struct DefaultDataProvider {
    /// Builds the senders, with the secret and the timeout that apply
    pub conn_factory: ConnFactory,
    /// The data-service endpoint
    pub source: ConnTarget,
}

/// The service can be asked anything.
pub open spec fn asks_anything<T, F: FnOnce(SenderPlan, DataRequest) -> Exchange<T>>(
    ask: F,
) -> bool {
    forall|plan: SenderPlan, request: DataRequest| #[trigger] call_requires(ask, (plan, request))
}

/// `r` is what sending a request leads to: no store where the endpoint has no
/// sender, else what the exchange over the planned sender amounts to.
pub open spec fn service_asked<T, F: FnOnce(SenderPlan, DataRequest) -> Exchange<T>>(
    provider: DefaultDataProvider,
    unix: bool,
    request: DataRequest,
    ask: F,
    r: Result<T, DataError>,
) -> bool {
    if crate::conns::factories::unsupported(provider.source, unix) {
        r == Err::<T, DataError>(DataError::StoreNotFound)
    } else {
        exists|plan: SenderPlan, end: Exchange<T>|
            crate::conns::factories::planned_sender(
                provider.conn_factory,
                provider.source,
                unix,
                plan,
            ) && #[trigger] call_ensures(ask, (plan, request), end) && amounts_to(end, r)
    }
}

/// `r` is what asking for an operation on a key of a partition leads to.
pub open spec fn operation_asked<T, F: FnOnce(SenderPlan, DataRequest) -> Exchange<T>>(
    provider: DefaultDataProvider,
    unix: bool,
    key: Seq<u8>,
    op: DataOp,
    partition: Seq<char>,
    ask: F,
    r: Result<T, DataError>,
) -> bool {
    exists|request: DataRequest|
        asks_for(request, key, op, partition) && #[trigger] service_asked(
            provider,
            unix,
            request,
            ask,
            r,
        )
}

/// `plan` goes to a socket path, under a secret and a timeout.
pub open spec fn goes_to_path(
    plan: SenderPlan,
    path: Seq<char>,
    secret: Option<Vec<u8>>,
    timeout: u64,
) -> bool {
    plan matches SenderPlan::Uds(s) && s.path@ == path && s.read_timeout_millis == Some(timeout)
        && s.write_timeout_millis == Some(timeout) && (match (s.secret, secret) {
        (Some(x), Some(y)) => x@ == y@,
        (None, None) => true,
        _ => false,
    })
}

/// `plan` goes to a host and port, under a secret and a timeout.
pub open spec fn goes_to_host(
    plan: SenderPlan,
    addr: Endpoint,
    secret: Option<Vec<u8>>,
    timeout: u64,
) -> bool {
    plan matches SenderPlan::Tcp(s) && s.addr.host@ == addr.host@ && s.addr.port == addr.port
        && s.read_timeout_millis == Some(timeout) && s.write_timeout_millis == Some(timeout) && (
    match (s.secret, secret) {
        (Some(x), Some(y)) => x@ == y@,
        (None, None) => true,
        _ => false,
    })
}

/// An operation reaches the service at its socket: where the service there answers
/// a request for this operation on this key of this partition, under the secret
/// and the timeout of the provider, its answer is the result.
pub proof fn operations_reach_the_socket<T, F: FnOnce(SenderPlan, DataRequest) -> Exchange<T>>(
    provider: DefaultDataProvider,
    path: String,
    key: Seq<u8>,
    op: DataOp,
    partition: Seq<char>,
    ask: F,
    r: Result<T, DataError>,
    answer: T,
)
    requires
        operation_asked(provider, true, key, op, partition, ask, r),
        provider.source == ConnTarget::Local(LocalTarget::Unix(path)),
        forall|plan: SenderPlan, request: DataRequest, end: Exchange<T>| #[trigger]
            call_ensures(ask, (plan, request), end) && goes_to_path(
                plan,
                path@,
                provider.conn_factory.shared_secret,
                provider.conn_factory.rw_timeout_millis,
            ) && request.key@ == key && request.op == op && request.partition_id@ == partition
                ==> end == Exchange::Answered(answer),
    ensures
        r == Ok::<T, DataError>(answer),
{
}

/// An operation reaches the service at its network address, on this host or
/// another: where the service there answers a request for this operation on this
/// key of this partition, its answer is the result.
pub proof fn operations_reach_the_host<T, F: FnOnce(SenderPlan, DataRequest) -> Exchange<T>>(
    provider: DefaultDataProvider,
    unix: bool,
    addr: Endpoint,
    key: Seq<u8>,
    op: DataOp,
    partition: Seq<char>,
    ask: F,
    r: Result<T, DataError>,
    answer: T,
)
    requires
        operation_asked(provider, unix, key, op, partition, ask, r),
        provider.source == ConnTarget::Remote(addr) || provider.source == ConnTarget::Local(
            LocalTarget::Tcp(addr),
        ),
        forall|plan: SenderPlan, request: DataRequest, end: Exchange<T>| #[trigger]
            call_ensures(ask, (plan, request), end) && goes_to_host(
                plan,
                addr,
                provider.conn_factory.shared_secret,
                provider.conn_factory.rw_timeout_millis,
            ) && request.key@ == key && request.op == op && request.partition_id@ == partition
                ==> end == Exchange::Answered(answer),
    ensures
        r == Ok::<T, DataError>(answer),
{
}

/// Where there are no Unix sockets, a service behind one is no store.
pub proof fn sockets_need_a_unix_host<T, F: FnOnce(SenderPlan, DataRequest) -> Exchange<T>>(
    provider: DefaultDataProvider,
    path: String,
    key: Seq<u8>,
    op: DataOp,
    partition: Seq<char>,
    ask: F,
    r: Result<T, DataError>,
)
    requires
        operation_asked(provider, false, key, op, partition, ask, r),
        provider.source == ConnTarget::Local(LocalTarget::Unix(path)),
    ensures
        r == Err::<T, DataError>(DataError::StoreNotFound),
{
}

/// An exchange succeeds exactly where the service answered, and then with its
/// answer. A hung service and a failed secret check are told apart from all other
/// failures, and the message of the failure is kept.
pub proof fn exchanges_tell_what_failed<T>(exchange: Exchange<T>, r: Result<T, DataError>)
    requires
        amounts_to(exchange, r),
    ensures
        r is Ok <==> exchange is Answered,
        exchange matches Exchange::Answered(value) ==> r == Ok::<T, DataError>(value),
        r matches Err(e) ==> {
            &&& e is SerializationError <==> exchange is NotSerialized
            &&& e is DeserializationError <==> exchange is NotDeserialized
            &&& e matches DataError::Timeout(msg) ==> exchange == Exchange::<T>::Failed(
                ConnError::Timeout(msg),
            )
            &&& e matches DataError::PeerUnauthenticated(msg) ==> exchange == Exchange::<T>::Failed(
                ConnError::Unauthenticated(msg),
            )
            &&& e is FromStore <==> (exchange matches Exchange::Failed(failure) && !(failure
                is Timeout) && !(failure is Unauthenticated))
        },
        exchange matches Exchange::Failed(ConnError::Timeout(msg)) ==> r == Err::<T, DataError>(
            DataError::Timeout(msg),
        ),
        exchange matches Exchange::Failed(ConnError::Unauthenticated(msg)) ==> r == Err::<
            T,
            DataError,
        >(DataError::PeerUnauthenticated(msg)),
{
}

/// The tip that is looked up is the hash of the last block of a valid chain; of a
/// broken or empty chain it is empty, and a token that is not found has none.
pub proof fn looked_up_tips_are_those_of_valid_chains(
    token: Result<Token, DataError>,
    r: Result<Option<Vec<u8>>, DataError>,
)
    requires
        tip_of(token, r),
    ensures
        token matches Err(e) ==> r == Err::<Option<Vec<u8>>, DataError>(e),
        token matches Ok(t) ==> {
            let chain = t.blockchain.chain@;
            &&& r matches Ok(Some(tip))
            &&& chain.len() > 0 && crate::blocks::chain_valid(chain) ==> tip@
                == chain.last().current_hash@
            &&& chain.len() == 0 || !crate::blocks::chain_valid(chain) ==> tip@.len() == 0
        },
{
}

impl DefaultDataProvider {
    pub fn new(source: ConnTarget) -> (r: Self)
        ensures
            r.source == source,
            r.conn_factory.shared_secret is None,
            r.conn_factory.rw_timeout_millis
                == crate::conns::factories::DEFAULT_RW_TIMEOUT_MILLIS,
    {
        DefaultDataProvider { conn_factory: ConnFactory::new(), source }
    }

    /// Authenticate every frame with a shared secret. The timeout falls back to
    /// its default.
    pub fn with_secret(self, secret: Vec<u8>) -> (r: Self)
        ensures
            r.source == self.source,
            r.conn_factory.shared_secret == Some(secret),
            r.conn_factory.rw_timeout_millis
                == crate::conns::factories::DEFAULT_RW_TIMEOUT_MILLIS,
    {
        DefaultDataProvider {
            conn_factory: ConnFactory::new().with_secret(Some(secret)),
            source: self.source,
        }
    }

    /// Talk to another endpoint.
    pub fn with_source(self, source: ConnTarget) -> (r: Self)
        ensures
            r.source == source,
            r.conn_factory == self.conn_factory,
    {
        DefaultDataProvider { conn_factory: self.conn_factory, source }
    }

    /// Set the bound on blocking reads and writes.
    pub fn with_timeout(self, rw_timeout_millis: u64) -> (r: Self)
        ensures
            r.source == self.source,
            r.conn_factory.shared_secret == self.conn_factory.shared_secret,
            r.conn_factory.rw_timeout_millis == rw_timeout_millis,
    {
        DefaultDataProvider {
            conn_factory: self.conn_factory.with_timeout(rw_timeout_millis),
            source: self.source,
        }
    }

    /// The endpoint that this provider talks to.
    pub fn get_source(&self) -> (r: ConnTarget)
        ensures
            crate::conns::same_target(r, self.source),
    {
        self.source.clone()
    }

    /// Send a request with the sender for the service, and take in what came of it.
    fn ask_service<T, F: FnOnce(SenderPlan, DataRequest) -> Exchange<T>>(
        &self,
        unix: bool,
        request: DataRequest,
        ask: F,
    ) -> (r: Result<T, DataError>)
        requires
            asks_anything(ask),
        ensures
            service_asked(*self, unix, request, ask, r),
    {
        match self.conn_factory.get_sender(self.get_source(), unix) {
            Ok(plan) => {
                let ghost planned = plan;
                let end = ask(plan, request);
                assert(call_ensures(ask, (planned, request), end));
                exchange_outcome(end)
            },
            Err(_) => Err(DataError::StoreNotFound),
        }
    }

    /// Read a key. A save operation is no read and is refused unsent.
    pub fn get_data_internal<T, F: FnOnce(SenderPlan, DataRequest) -> Exchange<T>>(
        &self,
        unix: bool,
        key: &Vec<u8>,
        op: DataOp,
        partition: &str,
        ask: F,
    ) -> (r: Result<T, DataError>)
        requires
            asks_anything(ask),
        ensures
            op is Save ==> r == Err::<T, DataError>(DataError::InvalidOperation(op)),
            op is Get ==> operation_asked(*self, unix, key@, op, partition@, ask, r),
    {
        match op {
            DataOp::Save(_) => Err(DataError::InvalidOperation(op)),
            DataOp::Get(_) => self.ask_service(unix, DataRequest::new(key, op, partition), ask),
        }
    }

    /// Write a key. A get operation is no write and is refused unsent.
    pub fn save_data_internal<F: FnOnce(SenderPlan, DataRequest) -> Exchange<()>>(
        &self,
        unix: bool,
        key: &Vec<u8>,
        op: DataOp,
        partition: &str,
        ask: F,
    ) -> (r: Result<(), DataError>)
        requires
            asks_anything(ask),
        ensures
            op is Get ==> r == Err::<(), DataError>(DataError::InvalidOperation(op)),
            op is Save ==> operation_asked(*self, unix, key@, op, partition@, ask, r),
    {
        match op {
            DataOp::Get(_) => Err(DataError::InvalidOperation(op)),
            DataOp::Save(_) => self.ask_service(unix, DataRequest::new(key, op, partition), ask),
        }
    }

    /// Read a token.
    pub fn get_token<F: FnOnce(SenderPlan, DataRequest) -> Exchange<Token>>(
        &self,
        unix: bool,
        key: &Vec<u8>,
        partition_id: &str,
        ask: F,
    ) -> (r: Result<Token, DataError>)
        requires
            asks_anything(ask),
        ensures
            operation_asked(
                *self,
                unix,
                key@,
                DataOp::Get(GetOp::Token),
                partition_id@,
                ask,
                r,
            ),
    {
        self.get_data_internal(unix, key, DataOp::Get(GetOp::Token), partition_id, ask)
    }

    /// Write a token.
    pub fn save_token<F: FnOnce(SenderPlan, DataRequest) -> Exchange<()>>(
        &self,
        unix: bool,
        key: &Vec<u8>,
        token: Token,
        partition_id: &str,
        ask: F,
    ) -> (r: Result<(), DataError>)
        requires
            asks_anything(ask),
        ensures
            operation_asked(
                *self,
                unix,
                key@,
                DataOp::Save(SaveOp::Token(token)),
                partition_id@,
                ask,
                r,
            ),
    {
        self.save_data_internal(unix, key, DataOp::Save(SaveOp::Token(token)), partition_id, ask)
    }

    /// Read raw data.
    pub fn get_data<F: FnOnce(SenderPlan, DataRequest) -> Exchange<Vec<u8>>>(
        &self,
        unix: bool,
        key: &Vec<u8>,
        partition_id: &str,
        ask: F,
    ) -> (r: Result<Vec<u8>, DataError>)
        requires
            asks_anything(ask),
        ensures
            operation_asked(
                *self,
                unix,
                key@,
                DataOp::Get(GetOp::Data),
                partition_id@,
                ask,
                r,
            ),
    {
        self.get_data_internal(unix, key, DataOp::Get(GetOp::Data), partition_id, ask)
    }

    /// Write raw data.
    pub fn save_data<F: FnOnce(SenderPlan, DataRequest) -> Exchange<()>>(
        &self,
        unix: bool,
        key: &Vec<u8>,
        data: Vec<u8>,
        partition_id: &str,
        ask: F,
    ) -> (r: Result<(), DataError>)
        requires
            asks_anything(ask),
        ensures
            operation_asked(
                *self,
                unix,
                key@,
                DataOp::Save(SaveOp::Data(data)),
                partition_id@,
                ask,
                r,
            ),
    {
        self.save_data_internal(unix, key, DataOp::Save(SaveOp::Data(data)), partition_id, ask)
    }

    /// Read a user.
    pub fn get_user<F: FnOnce(SenderPlan, DataRequest) -> Exchange<User>>(
        &self,
        unix: bool,
        key: &Vec<u8>,
        partition_id: &str,
        ask: F,
    ) -> (r: Result<User, DataError>)
        requires
            asks_anything(ask),
        ensures
            operation_asked(
                *self,
                unix,
                key@,
                DataOp::Get(GetOp::User),
                partition_id@,
                ask,
                r,
            ),
    {
        self.get_data_internal(unix, key, DataOp::Get(GetOp::User), partition_id, ask)
    }

    /// Write a user.
    pub fn save_user<F: FnOnce(SenderPlan, DataRequest) -> Exchange<()>>(
        &self,
        unix: bool,
        key: &Vec<u8>,
        user: User,
        partition_id: &str,
        ask: F,
    ) -> (r: Result<(), DataError>)
        requires
            asks_anything(ask),
        ensures
            operation_asked(
                *self,
                unix,
                key@,
                DataOp::Save(SaveOp::User(user)),
                partition_id@,
                ask,
                r,
            ),
    {
        self.save_data_internal(unix, key, DataOp::Save(SaveOp::User(user)), partition_id, ask)
    }

    /// Read the stake snapshot of an epoch.
    pub fn get_stake_snapshot<F: FnOnce(SenderPlan, DataRequest) -> Exchange<StakeSet>>(
        &self,
        unix: bool,
        epoch: u64,
        partition_id: &str,
        ask: F,
    ) -> (r: Result<StakeSet, DataError>)
        requires
            asks_anything(ask),
        ensures
            operation_asked(
                *self,
                unix,
                crate::bytes::be_bytes(epoch as nat, 8),
                DataOp::Get(GetOp::StakeSnapshot(epoch)),
                partition_id@,
                ask,
                r,
            ),
    {
        self.get_data_internal(unix, &epoch_key(epoch), DataOp::Get(GetOp::StakeSnapshot(epoch)), partition_id, ask)
    }

    /// Write the stake snapshot of an epoch.
    pub fn save_stake_snapshot<F: FnOnce(SenderPlan, DataRequest) -> Exchange<()>>(
        &self,
        unix: bool,
        epoch: u64,
        snapshot: StakeSet,
        partition_id: &str,
        ask: F,
    ) -> (r: Result<(), DataError>)
        requires
            asks_anything(ask),
        ensures
            operation_asked(
                *self,
                unix,
                crate::bytes::be_bytes(epoch as nat, 8),
                DataOp::Save(SaveOp::StakeSnapshot(snapshot)),
                partition_id@,
                ask,
                r,
            ),
    {
        self.save_data_internal(unix, &epoch_key(epoch), DataOp::Save(SaveOp::StakeSnapshot(snapshot)), partition_id, ask)
    }

    /// Read the executor set of an epoch.
    pub fn get_executor_set<F: FnOnce(SenderPlan, DataRequest) -> Exchange<ExecutorSet>>(
        &self,
        unix: bool,
        epoch: u64,
        partition_id: &str,
        ask: F,
    ) -> (r: Result<ExecutorSet, DataError>)
        requires
            asks_anything(ask),
        ensures
            operation_asked(
                *self,
                unix,
                crate::bytes::be_bytes(epoch as nat, 8),
                DataOp::Get(GetOp::ExecutorSet(epoch)),
                partition_id@,
                ask,
                r,
            ),
    {
        self.get_data_internal(unix, &epoch_key(epoch), DataOp::Get(GetOp::ExecutorSet(epoch)), partition_id, ask)
    }

    /// Write the executor set of an epoch.
    pub fn save_executor_set<F: FnOnce(SenderPlan, DataRequest) -> Exchange<()>>(
        &self,
        unix: bool,
        epoch: u64,
        set: ExecutorSet,
        partition_id: &str,
        ask: F,
    ) -> (r: Result<(), DataError>)
        requires
            asks_anything(ask),
        ensures
            operation_asked(
                *self,
                unix,
                crate::bytes::be_bytes(epoch as nat, 8),
                DataOp::Save(SaveOp::ExecutorSet(set)),
                partition_id@,
                ask,
                r,
            ),
    {
        self.save_data_internal(unix, &epoch_key(epoch), DataOp::Save(SaveOp::ExecutorSet(set)), partition_id, ask)
    }

    /// The chain tip of a token partition, from the token that is stored under
    /// the name of the partition.
    pub fn latest_block_hash<F: FnOnce(SenderPlan, DataRequest) -> Exchange<Token>>(
        &self,
        unix: bool,
        partition_id: &str,
        ask: F,
    ) -> (r: Result<Option<Vec<u8>>, DataError>)
        requires
            asks_anything(ask),
        ensures
            exists|token: Result<Token, DataError>| #[trigger]
                operation_asked(
                    *self,
                    unix,
                    vstd::utf8::encode_utf8(partition_id@),
                    DataOp::Get(GetOp::Token),
                    partition_id@,
                    ask,
                    token,
                ) && tip_of(token, r),
    {
        let token_id = copy_bytes(partition_id.as_bytes());
        let token = self.get_token(unix, &token_id, partition_id, ask);
        looked_up_tip(token)
    }
}

/// Values by key and partition.
struct Partitioned<V> {
    keys: KeyedStore<KeyedStore<V>>,
}

impl<V> Partitioned<V> {
    spec fn wf(&self) -> bool {
        &&& self.keys.wf()
        &&& forall|key: Seq<u8>| #[trigger]
            self.keys@.contains_key(key) ==> self.keys@[key].wf()
    }

    /// The value under a key in a partition.
    spec fn at(&self, key: Seq<u8>, partition: Seq<char>) -> Option<V> {
        let name = vstd::utf8::encode_utf8(partition);
        if self.keys@.contains_key(key) && self.keys@[key]@.contains_key(name) {
            Some(self.keys@[key]@[name])
        } else {
            None
        }
    }

    fn new() -> (r: Self)
        ensures
            r.wf(),
            forall|key: Seq<u8>, partition: Seq<char>| #[trigger] r.at(key, partition) is None,
    {
        Partitioned { keys: KeyedStore::new() }
    }

    fn insert(&mut self, key: &Vec<u8>, partition: &str, value: V)
        requires
            old(self).wf(),
        ensures
            final(self).wf(),
            forall|k: Seq<u8>, p: Seq<char>| #[trigger]
                final(self).at(k, p) == (if k == key@ && p == partition@ {
                    Some(value)
                } else {
                    old(self).at(k, p)
                }),
    {
        let name = copy_bytes(partition.as_bytes());
        let ghost before = self.keys@;
        match self.keys.get_mut(key) {
            Some(partitions) => {
                let _ = partitions.insert(name, value);
            },
            None => {
                let mut partitions: KeyedStore<V> = KeyedStore::new();
                let _ = partitions.insert(name, value);
                let _ = self.keys.insert(copy_bytes(key), partitions);
            },
        }
        proof {
            assert forall|k: Seq<u8>| #[trigger] self.keys@.contains_key(k) implies self.keys@[k].wf() by {
                if k != key@ {
                    assert(before.contains_key(k));
                }
            }
            assert forall|k: Seq<u8>, p: Seq<char>| #[trigger]
                self.at(k, p) == (if k == key@ && p == partition@ {
                    Some(value)
                } else {
                    old(self).at(k, p)
                }) by {
                if k == key@ && vstd::utf8::encode_utf8(p) == vstd::utf8::encode_utf8(partition@) {
                    crate::text::lemma_utf8_injective(p, partition@);
                }
            }
        }
    }

    fn get(&self, key: &Vec<u8>, partition: &str) -> (r: Option<&V>)
        requires
            self.wf(),
        ensures
            match r {
                Some(value) => self.at(key@, partition@) == Some(*value),
                None => self.at(key@, partition@) is None,
            },
    {
        match self.keys.get(key) {
            Some(partitions) => partitions.get(partition.as_bytes()),
            None => None,
        }
    }

    /// The value of some key that has one in the partition.
    fn any_in(&self, partition: &str) -> (r: Option<&V>)
        requires
            self.wf(),
        ensures
            r is None ==> forall|key: Seq<u8>| #[trigger] self.at(key, partition@) is None,
            r matches Some(value) ==> exists|key: Seq<u8>| #[trigger]
                self.at(key, partition@) == Some(*value),
    {
        let mut i: usize = 0;
        proof {
            self.keys.lemma_key_list();
        }
        while i < self.keys.len()
            invariant
                self.wf(),
                i <= self.keys.key_list().len(),
                forall|j: int|
                    #![trigger self.keys.key_list()[j]]
                    0 <= j < self.keys.key_list().len() ==> self.keys@.contains_key(
                        self.keys.key_list()[j],
                    ),
                forall|j: int|
                    #![trigger self.keys.key_list()[j]]
                    0 <= j < i ==> self.at(self.keys.key_list()[j], partition@) is None,
            decreases self.keys.key_list().len() - i,
        {
            let ghost key = self.keys.key_list()[i as int];
            match self.keys.value_at(i).get(partition.as_bytes()) {
                Some(value) => {
                    assert(self.at(key, partition@) == Some(*value));
                    return Some(value);
                },
                None => {},
            }
            i += 1;
        }
        proof {
            self.keys.lemma_key_list();
            assert forall|key: Seq<u8>| #[trigger] self.at(key, partition@) is None by {
                if self.keys@.contains_key(key) {
                    assert(self.keys.key_list().contains(key));
                    let j = choose|j: int|
                        0 <= j < self.keys.key_list().len() && self.keys.key_list()[j] == key;
                    assert(self.at(self.keys.key_list()[j], partition@) is None);
                }
            }
        }
        None
    }
}

/// A data provider that keeps everything in memory.
pub struct StubDataProvider {
    tokens: Partitioned<Token>,
    users: Partitioned<User>,
    stake_snapshots: HashMap<u64, StakeSet>,
    executor_sets: HashMap<u64, ExecutorSet>,
}

impl StubDataProvider {
    #[verifier::type_invariant]
    spec fn wf(self) -> bool {
        self.tokens.wf() && self.users.wf()
    }

    /// The token under a key in a partition.
    pub closed spec fn token_at(&self, key: Seq<u8>, partition: Seq<char>) -> Option<Token> {
        self.tokens.at(key, partition)
    }

    /// The user under a key in a partition.
    pub closed spec fn user_at(&self, key: Seq<u8>, partition: Seq<char>) -> Option<User> {
        self.users.at(key, partition)
    }

    /// The stake snapshots by epoch.
    pub closed spec fn snapshots(&self) -> Map<u64, StakeSet> {
        self.stake_snapshots@
    }

    /// The executor sets by epoch.
    pub closed spec fn sets(&self) -> Map<u64, ExecutorSet> {
        self.executor_sets@
    }

    pub fn new() -> (r: Self)
        ensures
            forall|key: Seq<u8>, p: Seq<char>| #[trigger] r.token_at(key, p) is None,
            forall|key: Seq<u8>, p: Seq<char>| #[trigger] r.user_at(key, p) is None,
            r.snapshots() == Map::<u64, StakeSet>::empty(),
            r.sets() == Map::<u64, ExecutorSet>::empty(),
    {
        StubDataProvider {
            tokens: Partitioned::new(),
            users: Partitioned::new(),
            stake_snapshots: HashMap::new(),
            executor_sets: HashMap::new(),
        }
    }

    pub fn with_token(self, key: Vec<u8>, partition_id: String, token: Token) -> (r: Self)
        ensures
            forall|k: Seq<u8>, p: Seq<char>| #[trigger]
                r.token_at(k, p) == (if k == key@ && p == partition_id@ {
                    Some(token)
                } else {
                    self.token_at(k, p)
                }),
            forall|k: Seq<u8>, p: Seq<char>| #[trigger] r.user_at(k, p) == self.user_at(k, p),
            r.snapshots() == self.snapshots(),
            r.sets() == self.sets(),
    {
        proof {
            use_type_invariant(&self);
        }
        let StubDataProvider { tokens, users, stake_snapshots, executor_sets } = self;
        let mut tokens = tokens;
        tokens.insert(&key, partition_id.as_str(), token);
        StubDataProvider { tokens, users, stake_snapshots, executor_sets }
    }

    pub fn with_user(self, key: Vec<u8>, partition_id: String, user: User) -> (r: Self)
        ensures
            forall|k: Seq<u8>, p: Seq<char>| #[trigger]
                r.user_at(k, p) == (if k == key@ && p == partition_id@ {
                    Some(user)
                } else {
                    self.user_at(k, p)
                }),
            forall|k: Seq<u8>, p: Seq<char>| #[trigger] r.token_at(k, p) == self.token_at(k, p),
            r.snapshots() == self.snapshots(),
            r.sets() == self.sets(),
    {
        proof {
            use_type_invariant(&self);
        }
        let StubDataProvider { tokens, users, stake_snapshots, executor_sets } = self;
        let mut users = users;
        users.insert(&key, partition_id.as_str(), user);
        StubDataProvider { tokens, users, stake_snapshots, executor_sets }
    }

    /// Add a stake snapshot for a given epoch.
    pub fn with_stake_snapshot(self, epoch: u64, snapshot: StakeSet) -> (r: Self)
        ensures
            r.snapshots() == self.snapshots().insert(epoch, snapshot),
            forall|k: Seq<u8>, p: Seq<char>| #[trigger] r.token_at(k, p) == self.token_at(k, p),
            forall|k: Seq<u8>, p: Seq<char>| #[trigger] r.user_at(k, p) == self.user_at(k, p),
            r.sets() == self.sets(),
    {
        proof {
            use_type_invariant(&self);
        }
        let StubDataProvider { tokens, users, stake_snapshots, executor_sets } = self;
        let mut stake_snapshots = stake_snapshots;
        stake_snapshots.insert(epoch, snapshot);
        StubDataProvider { tokens, users, stake_snapshots, executor_sets }
    }

    /// Add an executor set for a given epoch.
    pub fn with_executor_set(self, epoch: u64, set: ExecutorSet) -> (r: Self)
        ensures
            r.sets() == self.sets().insert(epoch, set),
            forall|k: Seq<u8>, p: Seq<char>| #[trigger] r.token_at(k, p) == self.token_at(k, p),
            forall|k: Seq<u8>, p: Seq<char>| #[trigger] r.user_at(k, p) == self.user_at(k, p),
            r.snapshots() == self.snapshots(),
    {
        proof {
            use_type_invariant(&self);
        }
        let StubDataProvider { tokens, users, stake_snapshots, executor_sets } = self;
        let mut executor_sets = executor_sets;
        executor_sets.insert(epoch, set);
        StubDataProvider { tokens, users, stake_snapshots, executor_sets }
    }

    /// Take everything out.
    fn taken(&mut self) -> (r: Self)
        ensures
            r == *old(self),
    {
        let mut r = StubDataProvider::new();
        std::mem::swap(self, &mut r);
        r
    }
}

impl Default for StubDataProvider {
    fn default() -> (r: Self)
        ensures
            forall|key: Seq<u8>, p: Seq<char>| #[trigger] r.token_at(key, p) is None,
            forall|key: Seq<u8>, p: Seq<char>| #[trigger] r.user_at(key, p) is None,
            r.snapshots() == Map::<u64, StakeSet>::empty(),
            r.sets() == Map::<u64, ExecutorSet>::empty(),
    {
        StubDataProvider::new()
    }
}

impl DataProvider for StubDataProvider {
    fn get_token(&self, key: &Vec<u8>, partition_id: &str) -> (r: Result<Token, DataError>)
        ensures
            match self.token_at(key@, partition_id@) {
                Some(token) => r matches Ok(copy) && crate::tokens::same_token(copy, token),
                None => r == Err::<Token, DataError>(DataError::DataNotFound),
            },
    {
        proof {
            use_type_invariant(self);
        }
        match self.tokens.get(key, partition_id) {
            Some(token) => Ok(token.clone()),
            None => Err(DataError::DataNotFound),
        }
    }

    fn save_token(&mut self, _key: &Vec<u8>, _token: Token, _partition_id: &str) -> (r: Result<
        (),
        DataError,
    >)
        ensures
            r is Ok,
            *final(self) == *old(self),
    {
        Ok(())
    }

    fn get_data(&self, _key: &Vec<u8>, _partition_id: &str) -> (r: Result<Vec<u8>, DataError>)
        ensures
            r == Err::<Vec<u8>, DataError>(DataError::DataNotFound),
    {
        Err(DataError::DataNotFound)
    }

    fn save_data(&mut self, _key: &Vec<u8>, _data: Vec<u8>, _partition_id: &str) -> (r: Result<
        (),
        DataError,
    >)
        ensures
            r is Ok,
            *final(self) == *old(self),
    {
        Ok(())
    }

    fn get_user(&self, key: &Vec<u8>, partition_id: &str) -> (r: Result<User, DataError>)
        ensures
            match self.user_at(key@, partition_id@) {
                Some(user) => r matches Ok(copy) && crate::user::same_user(copy, user),
                None => r == Err::<User, DataError>(DataError::DataNotFound),
            },
    {
        proof {
            use_type_invariant(self);
        }
        match self.users.get(key, partition_id) {
            Some(user) => Ok(user.clone()),
            None => Err(DataError::DataNotFound),
        }
    }

    fn save_user(&mut self, key: &Vec<u8>, user: User, partition_id: &str) -> (r: Result<
        (),
        DataError,
    >)
        ensures
            r is Ok,
            forall|k: Seq<u8>, p: Seq<char>| #[trigger]
                final(self).user_at(k, p) == (if k == key@ && p == partition_id@ {
                    Some(user)
                } else {
                    old(self).user_at(k, p)
                }),
            forall|k: Seq<u8>, p: Seq<char>| #[trigger]
                final(self).token_at(k, p) == old(self).token_at(k, p),
            final(self).snapshots() == old(self).snapshots(),
            final(self).sets() == old(self).sets(),
    {
        let taken = self.taken();
        *self = taken.with_user(copy_bytes(key), partition_id.to_owned(), user);
        Ok(())
    }

    fn get_stake_snapshot(&self, epoch: u64, _partition_id: &str) -> (r: Result<
        StakeSet,
        DataError,
    >)
        ensures
            match r {
                Ok(copy) => self.snapshots().contains_key(epoch) && copy.stakers@
                    == self.snapshots()[epoch].stakers@,
                Err(e) => !self.snapshots().contains_key(epoch) && e is DataNotFound,
            },
    {
        match self.stake_snapshots.get(&epoch) {
            Some(snapshot) => Ok(snapshot.clone()),
            None => Err(DataError::DataNotFound),
        }
    }

    fn save_stake_snapshot(
        &mut self,
        epoch: u64,
        snapshot: StakeSet,
        _partition_id: &str,
    ) -> (r: Result<(), DataError>)
        ensures
            r is Ok,
            final(self).snapshots() == old(self).snapshots().insert(epoch, snapshot),
            forall|k: Seq<u8>, p: Seq<char>| #[trigger]
                final(self).token_at(k, p) == old(self).token_at(k, p),
            forall|k: Seq<u8>, p: Seq<char>| #[trigger]
                final(self).user_at(k, p) == old(self).user_at(k, p),
            final(self).sets() == old(self).sets(),
    {
        let taken = self.taken();
        *self = taken.with_stake_snapshot(epoch, snapshot);
        Ok(())
    }

    fn get_executor_set(&self, epoch: u64, _partition_id: &str) -> (r: Result<
        ExecutorSet,
        DataError,
    >)
        ensures
            match r {
                Ok(copy) => self.sets().contains_key(epoch) && copy.executors@
                    == self.sets()[epoch].executors@,
                Err(e) => !self.sets().contains_key(epoch) && e is DataNotFound,
            },
    {
        match self.executor_sets.get(&epoch) {
            Some(set) => Ok(set.clone()),
            None => Err(DataError::DataNotFound),
        }
    }

    fn save_executor_set(&mut self, epoch: u64, set: ExecutorSet, _partition_id: &str) -> (r: Result<
        (),
        DataError,
    >)
        ensures
            r is Ok,
            final(self).sets() == old(self).sets().insert(epoch, set),
            forall|k: Seq<u8>, p: Seq<char>| #[trigger]
                final(self).token_at(k, p) == old(self).token_at(k, p),
            forall|k: Seq<u8>, p: Seq<char>| #[trigger]
                final(self).user_at(k, p) == old(self).user_at(k, p),
            final(self).snapshots() == old(self).snapshots(),
    {
        let taken = self.taken();
        *self = taken.with_executor_set(epoch, set);
        Ok(())
    }

    fn latest_block_hash(&self, partition_id: &str) -> (r: Result<Option<Vec<u8>>, DataError>)
        ensures
            match r {
                Ok(Some(tip)) => exists|key: Seq<u8>|
                    (#[trigger] self.token_at(key, partition_id@)) is Some && tip@
                        == crate::blocks::chain_tip(
                        self.token_at(key, partition_id@)->0.blockchain.chain@,
                    ),
                Ok(None) => forall|key: Seq<u8>| #[trigger]
                    self.token_at(key, partition_id@) is None,
                Err(_) => false,
            },
    {
        proof {
            use_type_invariant(self);
        }
        match self.tokens.any_in(partition_id) {
            Some(token) => {
                let tip = token.blockchain.get_current_chain_state().last_hash_in;
                proof {
                    let key = choose|key: Seq<u8>| #[trigger]
                        self.tokens.at(key, partition_id@) == Some(*token);
                    assert(self.token_at(key, partition_id@) is Some);
                }
                Ok(Some(tip))
            },
            None => {
                assert forall|key: Seq<u8>| #[trigger] self.token_at(key, partition_id@) is None by {
                    assert(self.tokens.at(key, partition_id@) is None);
                }
                Ok(None)
            },
        }
    }
}

} // verus!
