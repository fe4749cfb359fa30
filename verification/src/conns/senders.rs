//! Request framing: what is written to the data channel and what is accepted
//! from it.
use crate::bytes::{append_bytes, copy_bytes, to_be_bytes};
use crate::conns::uds::{sign_payload, verify_payload};
use crate::conns::ConnError;
use vstd::prelude::*;
use vstd::slice::slice_subrange;

verus! {

/// How many seconds a connect may take.
pub const CONNECT_TIMEOUT_SECS: u64 = 5;

/// Length of the HMAC tag in front of every framed body.
pub const AUTH_TAG_LEN: usize = 32;

/// Sends a request and waits for its response.
pub trait Sender: Send + Sync {
    /// Send `data` to the remote and return the response body.
    fn get_response(&self, data: &[u8]) -> Result<Vec<u8>, ConnError>;
}

/// The direction in which an I/O operation failed.
#[derive(Debug, Clone, Copy, PartialEq, Eq, Structural)]
pub enum IoErrorKind {
    Read,
    Write,
}

/// Why an I/O operation failed, as far as it matters here.
#[derive(Debug, Clone, Copy, PartialEq, Eq, Structural)]
pub enum IoFailure {
    /// The operation would have had to wait beyond its timeout
    WouldBlock,
    TimedOut,
    Other,
}

/// How an I/O operation failed, with the text of its error.
#[derive(Debug)]
pub struct IoReport {
    pub failure: IoFailure,
    pub msg: String,
}

/// How a failed I/O operation is reported.
pub open spec fn io_error(report: IoReport, kind: IoErrorKind) -> ConnError {
    if report.failure != IoFailure::Other {
        ConnError::Timeout(report.msg)
    } else if kind == IoErrorKind::Read {
        ConnError::ReadError(Some(report.msg))
    } else {
        ConnError::WriteError(Some(report.msg))
    }
}

/// How a failed I/O operation is reported: an expired timeout, which a blocking
/// socket reports in either of two ways, as `Timeout`, so that a hung peer is
/// told apart, anything else by its direction.
pub fn map_io_err(e: IoReport, kind: IoErrorKind) -> (r: ConnError)
    ensures
        r == io_error(e, kind),
{
    match e.failure {
        IoFailure::WouldBlock => ConnError::Timeout(e.msg),
        IoFailure::TimedOut => ConnError::Timeout(e.msg),
        IoFailure::Other => match kind {
            IoErrorKind::Read => ConnError::ReadError(Some(e.msg)),
            IoErrorKind::Write => ConnError::WriteError(Some(e.msg)),
        },
    }
}

/// A framed request: the length of tag and body in four big-endian bytes, the
/// tag, the body.
pub open spec fn request_frame(secret: Option<Seq<u8>>, payload: Seq<u8>) -> Seq<u8> {
    crate::bytes::be_bytes((AUTH_TAG_LEN + payload.len()) as nat, 4)
        + crate::conns::uds::payload_tag(secret, payload) + payload
}

/// Frame one request. The announced length counts the tag and the body. A frame
/// whose length fits its header is accepted under the same secret and gives the
/// payload back.
pub fn write_frame(secret: Option<&[u8]>, payload: &[u8]) -> (r: Vec<u8>)
    requires
        payload@.len() + AUTH_TAG_LEN <= usize::MAX,
    ensures
        r@ == request_frame(crate::conns::uds::optional_bytes(secret), payload@),
        payload@.len() + AUTH_TAG_LEN <= u32::MAX ==> frame_opens(
            crate::conns::uds::optional_bytes(secret),
            payload@,
            r@,
        ),
{
    let (tag, body) = sign_payload(secret, payload);
    proof {
        if payload@.len() + AUTH_TAG_LEN <= u32::MAX {
            lemma_frame_opens(crate::conns::uds::optional_bytes(secret), payload@);
        }
    }
    let mut frame = to_be_bytes((AUTH_TAG_LEN + body.len()) as u64, 4);
    append_bytes(&mut frame, tag.as_slice());
    append_bytes(&mut frame, &body);
    frame
}

/// `r` is what comes of a received body: its payload if the tag in front of it
/// is accepted.
pub open spec fn unframed(
    secret: Option<Seq<u8>>,
    body: Seq<u8>,
    r: Result<Vec<u8>, ConnError>,
) -> bool {
    if body.len() < AUTH_TAG_LEN {
        r matches Err(ConnError::MalformedData(msg)) && msg@ == "response shorter than auth tag"@
    } else if crate::conns::uds::tag_accepted(secret, body.take(32), body.skip(32)) {
        r matches Ok(payload) && payload@ == body.skip(32)
    } else {
        r matches Err(ConnError::Unauthenticated(msg)) && msg@
            == "response HMAC verification failed"@
    }
}

/// Split a received body into its tag and its payload, and hand the payload out
/// if the tag is accepted.
pub fn unframe(secret: Option<&[u8]>, body: &[u8]) -> (r: Result<Vec<u8>, ConnError>)
    ensures
        unframed(crate::conns::uds::optional_bytes(secret), body@, r),
{
    if body.len() < AUTH_TAG_LEN {
        return Err(ConnError::MalformedData("response shorter than auth tag".to_owned()));
    }
    let tag = slice_subrange(body, 0, AUTH_TAG_LEN);
    let payload = slice_subrange(body, AUTH_TAG_LEN, body.len());
    assert(tag@ =~= body@.take(32));
    assert(payload@ =~= body@.skip(32));
    if verify_payload(secret, tag, payload) {
        Ok(copy_bytes(payload))
    } else {
        Err(ConnError::Unauthenticated("response HMAC verification failed".to_owned()))
    }
}

/// `r` is what comes of a response whose header was read: an oversized one is
/// refused unread; else the announced number of bytes is read and unframed.
pub open spec fn response_received<B: FnOnce(usize) -> Result<Vec<u8>, IoReport>>(
    secret: Option<Seq<u8>>,
    header: Seq<u8>,
    read_body: B,
    r: Result<Vec<u8>, ConnError>,
) -> bool {
    let announced = crate::bytes::be_value(header);
    if announced > crate::conns::MAX_FRAME_SIZE {
        r matches Err(ConnError::MalformedData(msg)) && msg@ == crate::conns::oversize_text(
            announced,
        )
    } else {
        exists|length: usize, body: Result<Vec<u8>, IoReport>|
            length == announced && #[trigger] call_ensures(read_body, (length,), body)
                && match body {
                Ok(bytes) => unframed(secret, bytes@, r),
                Err(e) => r == Err::<Vec<u8>, ConnError>(io_error(e, IoErrorKind::Read)),
            }
    }
}

/// `r` is what comes of a request whose frame was written: the header of the
/// response is read, then its body.
pub open spec fn response_awaited<
    H: FnOnce() -> Result<[u8; 4], IoReport>,
    B: FnOnce(usize) -> Result<Vec<u8>, IoReport>,
>(
    secret: Option<Seq<u8>>,
    read_header: H,
    read_body: B,
    r: Result<Vec<u8>, ConnError>,
) -> bool {
    exists|header: Result<[u8; 4], IoReport>| #[trigger]
        call_ensures(read_header, (), header) && match header {
            Ok(bytes) => response_received(secret, bytes@, read_body, r),
            Err(e) => r == Err::<Vec<u8>, ConnError>(io_error(e, IoErrorKind::Read)),
        }
}

/// What one end frames the other end reads: a frame announces its own rest, and
/// under the same secret that rest is accepted and gives the payload back.
pub proof fn framed_requests_are_read_back(
    secret: Option<Seq<u8>>,
    payload: Seq<u8>,
    r: Result<Vec<u8>, ConnError>,
)
    requires
        payload.len() + 32 <= u32::MAX,
        secret matches Some(key) ==> crate::primitives::hmac_sha256_tag(key, payload).len() == 32,
        unframed(
            secret,
            request_frame(secret, payload).subrange(
                4,
                request_frame(secret, payload).len() as int,
            ),
            r,
        ),
    ensures
        request_frame(secret, payload).len() == 4 + 32 + payload.len(),
        crate::bytes::be_value(request_frame(secret, payload).subrange(0, 4)) == 32
            + payload.len(),
        r matches Ok(received) && received@ == payload,
{
    let frame = request_frame(secret, payload);
    lemma_frame_opens(secret, payload);
    crate::bytes::lemma_be_bytes_len((AUTH_TAG_LEN + payload.len()) as nat, 4);
    assert(frame.subrange(0, 4) =~= frame.take(4));
    assert(frame.subrange(4, frame.len() as int) =~= frame.skip(4));
}

/// A response whose tag is not the HMAC of its payload under the secret is refused
/// as unauthenticated, and one that is too short for a tag as malformed.
pub proof fn forged_responses_are_refused(
    secret: Seq<u8>,
    tag: Seq<u8>,
    payload: Seq<u8>,
    r: Result<Vec<u8>, ConnError>,
)
    requires
        tag != crate::primitives::hmac_sha256_tag(secret, payload),
        tag.len() <= 32,
        tag.len() < 32 ==> payload.len() == 0,
        unframed(Some(secret), tag + payload, r),
    ensures
        tag.len() == 32 ==> r matches Err(ConnError::Unauthenticated(_)),
        tag.len() < 32 ==> r matches Err(ConnError::MalformedData(_)),
{
    assert(tag.len() == 32 ==> (tag + payload).take(32) =~= tag);
    assert(tag.len() == 32 ==> (tag + payload).skip(32) =~= payload);
}

/// A response that comes in as announced is unframed; beyond sixteen mebibytes it
/// is refused unread.
pub proof fn responses_are_read_as_announced<
    H: FnOnce() -> Result<[u8; 4], IoReport>,
    B: FnOnce(usize) -> Result<Vec<u8>, IoReport>,
>(
    secret: Option<Seq<u8>>,
    read_header: H,
    read_body: B,
    r: Result<Vec<u8>, ConnError>,
    header: [u8; 4],
    body: Vec<u8>,
)
    requires
        response_awaited(secret, read_header, read_body, r),
        forall|end: Result<[u8; 4], IoReport>| #[trigger]
            call_ensures(read_header, (), end) ==> end == Ok::<[u8; 4], IoReport>(header),
        forall|length: usize, end: Result<Vec<u8>, IoReport>|
            length == crate::bytes::be_value(header@) && #[trigger] call_ensures(
                read_body,
                (length,),
                end,
            ) ==> end == Ok::<Vec<u8>, IoReport>(body),
    ensures
        crate::bytes::be_value(header@) <= 16_777_216 ==> unframed(secret, body@, r),
        crate::bytes::be_value(header@) > 16_777_216 ==> r matches Err(ConnError::MalformedData(_)),
{
}

/// An expired timeout is told apart from every other failure, and every other
/// failure keeps its direction; the text of the error is kept.
pub proof fn timeouts_are_told_apart(report: IoReport)
    ensures
        (report.failure == IoFailure::WouldBlock || report.failure == IoFailure::TimedOut)
            ==> io_error(report, IoErrorKind::Read) == ConnError::Timeout(report.msg)
            && io_error(report, IoErrorKind::Write) == ConnError::Timeout(report.msg),
        report.failure == IoFailure::Other ==> io_error(report, IoErrorKind::Read)
            == ConnError::ReadError(Some(report.msg)) && io_error(report, IoErrorKind::Write)
            == ConnError::WriteError(Some(report.msg)),
{
}

/// One request and its response on a stream: write the frame of the request,
/// read the header of the response, read as much as it announces, and unframe it.
pub fn exchange_frames<
    W: FnOnce(&[u8]) -> Result<(), IoReport>,
    H: FnOnce() -> Result<[u8; 4], IoReport>,
    B: FnOnce(usize) -> Result<Vec<u8>, IoReport>,
>(secret: Option<&[u8]>, data: &[u8], write: W, read_header: H, read_body: B) -> (r: Result<
    Vec<u8>,
    ConnError,
>)
    requires
        data@.len() + AUTH_TAG_LEN <= usize::MAX,
        forall|frame: &[u8]| #[trigger] call_requires(write, (frame,)),
        call_requires(read_header, ()),
        forall|length: usize|
            length <= crate::conns::MAX_FRAME_SIZE ==> #[trigger] call_requires(
                read_body,
                (length,),
            ),
    ensures
        exists|frame: &[u8], written: Result<(), IoReport>|
            frame@ == request_frame(crate::conns::uds::optional_bytes(secret), data@)
                && #[trigger] call_ensures(write, (frame,), written) && match written {
                Ok(()) => response_awaited(
                    crate::conns::uds::optional_bytes(secret),
                    read_header,
                    read_body,
                    r,
                ),
                Err(e) => r == Err::<Vec<u8>, ConnError>(io_error(e, IoErrorKind::Write)),
            },
{
    let frame = write_frame(secret, data);
    let written = write(frame.as_slice());
    match written {
        Ok(()) => {},
        Err(e) => {
            return Err(map_io_err(e, IoErrorKind::Write));
        },
    }
    let header = read_header();
    match header {
        Ok(bytes) => match crate::conns::frame_length(&bytes) {
            Ok(length) => {
                let body = read_body(length);
                assert(call_ensures(read_body, (length,), body));
                match body {
                    Ok(received) => unframe(secret, &received),
                    Err(e) => Err(map_io_err(e, IoErrorKind::Read)),
                }
            },
            Err(e) => Err(e),
        },
        Err(e) => Err(map_io_err(e, IoErrorKind::Read)),
    }
}

/// A frame is accepted by its receiver: its header announces the rest of it, the
/// tag is accepted, and what follows the tag is the payload.
pub open spec fn frame_opens(secret: Option<Seq<u8>>, payload: Seq<u8>, frame: Seq<u8>) -> bool {
    let body = frame.skip(4);
    &&& frame.len() >= 4
    &&& crate::bytes::be_value(frame.take(4)) == body.len()
    &&& crate::conns::uds::tag_accepted(secret, body.take(32), body.skip(32))
    &&& body.skip(32) == payload
}

proof fn lemma_frame_opens(secret: Option<Seq<u8>>, payload: Seq<u8>)
    requires
        payload.len() + AUTH_TAG_LEN <= u32::MAX,
        crate::conns::uds::payload_tag(secret, payload).len() == 32,
    ensures
        frame_opens(secret, payload, request_frame(secret, payload)),
{
    let frame = request_frame(secret, payload);
    let n = (AUTH_TAG_LEN + payload.len()) as nat;
    crate::bytes::lemma_be_bytes_len(n, 4);
    assert(vstd::arithmetic::power::pow(256, 4) == 0x1_0000_0000) by {
        reveal_with_fuel(vstd::arithmetic::power::pow, 5);
    }
    crate::bytes::lemma_be_round_trip(n, 4);
    assert(frame.take(4) =~= crate::bytes::be_bytes(n, 4));
    let tag = crate::conns::uds::payload_tag(secret, payload);
    assert(frame.skip(4) =~= tag + payload);
    assert((tag + payload).take(32) =~= tag);
    assert((tag + payload).skip(32) =~= payload);
}

/// A sender to a Unix-domain socket.
#[derive(Debug)]
pub struct UdsSender {
    pub path: String,
    pub secret: Option<Vec<u8>>,
    pub read_timeout_millis: Option<u64>,
    pub write_timeout_millis: Option<u64>,
}

impl UdsSender {
    pub fn new(path: String, secret: Option<Vec<u8>>) -> (r: Self)
        ensures
            r.path == path,
            r.secret == secret,
            r.read_timeout_millis is None,
            r.write_timeout_millis is None,
    {
        UdsSender { path, secret, read_timeout_millis: None, write_timeout_millis: None }
    }

    pub fn with_secret(self, secret: Option<Vec<u8>>) -> (r: Self)
        ensures
            r == (UdsSender { secret, ..self }),
    {
        UdsSender {
            path: self.path,
            secret,
            read_timeout_millis: self.read_timeout_millis,
            write_timeout_millis: self.write_timeout_millis,
        }
    }

    /// Bound blocking reads and writes.
    pub fn with_timeouts(self, read: Option<u64>, write: Option<u64>) -> (r: Self)
        ensures
            r == (UdsSender { read_timeout_millis: read, write_timeout_millis: write, ..self }),
    {
        UdsSender {
            path: self.path,
            secret: self.secret,
            read_timeout_millis: read,
            write_timeout_millis: write,
        }
    }
}

/// A sender to a TCP address.
#[derive(Debug)]
pub struct TcpSender {
    pub addr: crate::conns::Endpoint,
    pub secret: Option<Vec<u8>>,
    pub read_timeout_millis: Option<u64>,
    pub write_timeout_millis: Option<u64>,
}

impl TcpSender {
    pub fn new(addr: crate::conns::Endpoint, secret: Option<Vec<u8>>) -> (r: Self)
        ensures
            r.addr == addr,
            r.secret == secret,
            r.read_timeout_millis is None,
            r.write_timeout_millis is None,
    {
        TcpSender { addr, secret, read_timeout_millis: None, write_timeout_millis: None }
    }

    pub fn with_secret(self, secret: Option<Vec<u8>>) -> (r: Self)
        ensures
            r == (TcpSender { secret, ..self }),
    {
        TcpSender {
            addr: self.addr,
            secret,
            read_timeout_millis: self.read_timeout_millis,
            write_timeout_millis: self.write_timeout_millis,
        }
    }

    /// Bound blocking reads and writes.
    pub fn with_timeouts(self, read: Option<u64>, write: Option<u64>) -> (r: Self)
        ensures
            r == (TcpSender { read_timeout_millis: read, write_timeout_millis: write, ..self }),
    {
        TcpSender {
            addr: self.addr,
            secret: self.secret,
            read_timeout_millis: read,
            write_timeout_millis: write,
        }
    }
}

} // verus!
