//! `ConnFactory`: which sender or listener a target calls for.
use crate::bytes::copy_bytes;
use crate::conns::senders::{TcpSender, UdsSender};
use crate::conns::{ConnError, ConnTarget, Endpoint, LocalTarget};
use vstd::prelude::*;

verus! {

/// Default bound on blocking reads and writes: 15 seconds.
pub const DEFAULT_RW_TIMEOUT_MILLIS: u64 = 15_000;

/// How a Unix target is refused where there are no Unix sockets.
pub open spec fn not_unix_text() -> Seq<char> {
    "This is not a Unix runtime environment. Use the TCP loopback address for internal communication."@
}

fn not_unix() -> (r: ConnError)
    ensures
        r matches ConnError::MalformedData(msg) && msg@ == not_unix_text(),
{
    ConnError::MalformedData(
        "This is not a Unix runtime environment. Use the TCP loopback address for internal communication.".to_owned(),
    )
}

/// A sender for one of the two transports.
#[derive(Debug)]
pub enum SenderPlan {
    Tcp(TcpSender),
    Uds(UdsSender),
}

/// What to listen on.
#[derive(Debug)]
pub enum ListenerPlan {
    Tcp(Endpoint),
    /// The service name of a Unix-domain socket
    Uds(String),
}

/// Builds senders and listeners with one secret and one timeout.
#[derive(Debug)]
pub struct ConnFactory {
    /// Shared secret for HMAC-authenticated framing
    pub shared_secret: Option<Vec<u8>>,
    /// Bound on blocking reads and writes
    pub rw_timeout_millis: u64,
}

/// Two optional secrets hold the same bytes.
pub open spec fn same_secret(a: Option<Vec<u8>>, b: Option<Vec<u8>>) -> bool {
    match (a, b) {
        (Some(x), Some(y)) => x@ == y@,
        (None, None) => true,
        _ => false,
    }
}

fn copy_secret(secret: &Option<Vec<u8>>) -> (r: Option<Vec<u8>>)
    ensures
        same_secret(r, *secret),
{
    match secret {
        Some(key) => Some(copy_bytes(key)),
        None => None,
    }
}

/// The sender that a factory plans for a target.
pub open spec fn planned_sender(
    factory: ConnFactory,
    target: ConnTarget,
    unix: bool,
    plan: SenderPlan,
) -> bool {
    let timeout = Some(factory.rw_timeout_millis);
    match (target, plan) {
        (ConnTarget::Remote(addr), SenderPlan::Tcp(s)) => s.addr == addr && same_secret(
            s.secret,
            factory.shared_secret,
        ) && s.read_timeout_millis == timeout && s.write_timeout_millis == timeout,
        (ConnTarget::Local(LocalTarget::Tcp(addr)), SenderPlan::Tcp(s)) => s.addr == addr
            && same_secret(s.secret, factory.shared_secret) && s.read_timeout_millis == timeout
            && s.write_timeout_millis == timeout,
        (ConnTarget::Local(LocalTarget::Unix(path)), SenderPlan::Uds(s)) => unix && s.path == path
            && same_secret(s.secret, factory.shared_secret) && s.read_timeout_millis == timeout
            && s.write_timeout_millis == timeout,
        _ => false,
    }
}

/// The target is a Unix socket where there are none.
pub open spec fn unsupported(target: ConnTarget, unix: bool) -> bool {
    !unix && target matches ConnTarget::Local(LocalTarget::Unix(_))
}

/// `r` is what a target is listened on with.
pub open spec fn listens_on(
    target: ConnTarget,
    unix: bool,
    r: Result<ListenerPlan, ConnError>,
) -> bool {
    match target {
        ConnTarget::Remote(addr) => r == Ok::<ListenerPlan, ConnError>(ListenerPlan::Tcp(addr)),
        ConnTarget::Local(LocalTarget::Tcp(addr)) => r == Ok::<ListenerPlan, ConnError>(
            ListenerPlan::Tcp(addr),
        ),
        ConnTarget::Local(LocalTarget::Unix(name)) => if unix {
            r == Ok::<ListenerPlan, ConnError>(ListenerPlan::Uds(name))
        } else {
            r matches Err(ConnError::MalformedData(_))
        },
    }
}

/// Who listens on a target and who sends to it use the same transport and the same
/// place, and either fails exactly where there are no Unix sockets for one.
pub proof fn senders_and_listeners_meet(
    factory: ConnFactory,
    target: ConnTarget,
    unix: bool,
    listener: Result<ListenerPlan, ConnError>,
    plan: SenderPlan,
)
    requires
        listens_on(target, unix, listener),
        planned_sender(factory, target, unix, plan),
    ensures
        listener matches Ok(ListenerPlan::Tcp(addr)) ==> (plan matches SenderPlan::Tcp(s)
            && s.addr == addr),
        listener matches Ok(ListenerPlan::Uds(name)) ==> (plan matches SenderPlan::Uds(s)
            && s.path == name),
        listener is Ok,
        listener is Err <==> !unix && (target matches ConnTarget::Local(LocalTarget::Unix(_))),
{
}

/// A factory bounds every read and write of its senders, by fifteen seconds unless
/// told otherwise.
pub proof fn senders_are_bounded(
    factory: ConnFactory,
    target: ConnTarget,
    unix: bool,
    plan: SenderPlan,
)
    requires
        planned_sender(factory, target, unix, plan),
    ensures
        DEFAULT_RW_TIMEOUT_MILLIS == 15_000,
        plan matches SenderPlan::Tcp(s) ==> s.read_timeout_millis == Some(factory.rw_timeout_millis)
            && s.write_timeout_millis == Some(factory.rw_timeout_millis) && (s.secret is Some
            <==> factory.shared_secret is Some),
        plan matches SenderPlan::Uds(s) ==> s.read_timeout_millis == Some(factory.rw_timeout_millis)
            && s.write_timeout_millis == Some(factory.rw_timeout_millis) && (s.secret is Some
            <==> factory.shared_secret is Some),
{
}

impl ConnFactory {
    pub fn new() -> (r: ConnFactory)
        ensures
            r.shared_secret is None,
            r.rw_timeout_millis == DEFAULT_RW_TIMEOUT_MILLIS,
    {
        ConnFactory { shared_secret: None, rw_timeout_millis: DEFAULT_RW_TIMEOUT_MILLIS }
    }

    /// Set the shared secret of all senders.
    pub fn with_secret(self, shared_secret: Option<Vec<u8>>) -> (r: ConnFactory)
        ensures
            r == (ConnFactory { shared_secret, ..self }),
    {
        ConnFactory { shared_secret, rw_timeout_millis: self.rw_timeout_millis }
    }

    /// Override the bound on blocking reads and writes.
    pub fn with_timeout(self, rw_timeout_millis: u64) -> (r: ConnFactory)
        ensures
            r == (ConnFactory { rw_timeout_millis, ..self }),
    {
        ConnFactory { shared_secret: self.shared_secret, rw_timeout_millis }
    }

    /// The sender for a target. `unix` says whether there are Unix sockets.
    pub fn get_sender(&self, target: ConnTarget, unix: bool) -> (r: Result<SenderPlan, ConnError>)
        ensures
            match r {
                Ok(plan) => planned_sender(*self, target, unix, plan),
                Err(ConnError::MalformedData(msg)) => unsupported(target, unix) && msg@
                    == not_unix_text(),
                Err(_) => false,
            },
            r is Err <==> unsupported(target, unix),
    {
        let timeout = Some(self.rw_timeout_millis);
        match target {
            ConnTarget::Remote(addr) => Ok(
                SenderPlan::Tcp(
                    TcpSender::new(addr, copy_secret(&self.shared_secret)).with_timeouts(
                        timeout,
                        timeout,
                    ),
                ),
            ),
            ConnTarget::Local(LocalTarget::Tcp(addr)) => Ok(
                SenderPlan::Tcp(
                    TcpSender::new(addr, copy_secret(&self.shared_secret)).with_timeouts(
                        timeout,
                        timeout,
                    ),
                ),
            ),
            ConnTarget::Local(LocalTarget::Unix(path)) => {
                if !unix {
                    return Err(not_unix());
                }
                Ok(
                    SenderPlan::Uds(
                        UdsSender::new(path, copy_secret(&self.shared_secret)).with_timeouts(
                            timeout,
                            timeout,
                        ),
                    ),
                )
            },
        }
    }

    /// What to listen on for a target. `unix` says whether there are Unix sockets.
    pub fn get_listener(&self, target: ConnTarget, unix: bool) -> (r: Result<
        ListenerPlan,
        ConnError,
    >)
        ensures
            match (target, r) {
                (ConnTarget::Remote(addr), Ok(ListenerPlan::Tcp(a))) => a == addr,
                (ConnTarget::Local(LocalTarget::Tcp(addr)), Ok(ListenerPlan::Tcp(a))) => a == addr,
                (ConnTarget::Local(LocalTarget::Unix(name)), Ok(ListenerPlan::Uds(n))) => unix && n
                    == name,
                (_, Err(ConnError::MalformedData(msg))) => unsupported(target, unix) && msg@
                    == not_unix_text(),
                _ => false,
            },
            listens_on(target, unix, r),
    {
        match target {
            ConnTarget::Remote(addr) => Ok(ListenerPlan::Tcp(addr)),
            ConnTarget::Local(LocalTarget::Tcp(addr)) => Ok(ListenerPlan::Tcp(addr)),
            ConnTarget::Local(LocalTarget::Unix(name)) => {
                if !unix {
                    return Err(not_unix());
                }
                Ok(ListenerPlan::Uds(name))
            },
        }
    }
}

impl Default for ConnFactory {
    fn default() -> (r: Self)
        ensures
            r.shared_secret is None,
            r.rw_timeout_millis == DEFAULT_RW_TIMEOUT_MILLIS,
    {
        ConnFactory::new()
    }
}

} // verus!
