use pneumatic_core::bytes::to_be_bytes;
use pneumatic_core::conns::factories::{ConnFactory, ListenerPlan, SenderPlan, DEFAULT_RW_TIMEOUT_MILLIS};
use pneumatic_core::conns::senders::{
    exchange_frames, map_io_err, unframe, write_frame, IoErrorKind, IoFailure, IoReport, UdsSender,
};
use pneumatic_core::conns::uds::{
    check_dir_mode, hmac_sha256, sign_payload, socket_dir_name, socket_file_name,
    socket_path_action, verify_payload, PathKind,
};
use pneumatic_core::conns::{
    frame_length, frame_message, frame_read, get_data, get_external_port, get_internal_port, ConnError, ConnTarget,
    Endpoint, LocalTarget, ARCHIVER_PORT, ARCHIVER_PORT_INTERNAL, MAX_FRAME_SIZE,
};
use pneumatic_core::node::NodeRegistryType;
use std::sync::Mutex;

const SECRET: &[u8] = b"correct horse battery staple";

#[test]
fn archiver_no_longer_shares_committer_ports() {
    assert_eq!(get_external_port(&NodeRegistryType::Archiver), ARCHIVER_PORT);
    assert_eq!(get_internal_port(&NodeRegistryType::Archiver), ARCHIVER_PORT_INTERNAL);
    assert_ne!(
        get_external_port(&NodeRegistryType::Archiver),
        get_external_port(&NodeRegistryType::Committer),
        "Archiver external port must differ from Committer"
    );
    assert_ne!(
        get_internal_port(&NodeRegistryType::Archiver),
        get_internal_port(&NodeRegistryType::Committer),
        "Archiver internal port must differ from Committer"
    );
}

#[test]
fn every_type_has_distinct_port_pair() {
    let types = [
        NodeRegistryType::Committer,
        NodeRegistryType::Sentinel,
        NodeRegistryType::Executor,
        NodeRegistryType::Finalizer,
        NodeRegistryType::Archiver,
    ];
    let externals: Vec<u16> = types.iter().map(|t| get_external_port(t)).collect();
    let internals: Vec<u16> = types.iter().map(|t| get_internal_port(t)).collect();
    for pair in externals.windows(2) {
        assert_ne!(pair[0], pair[1], "duplicate external port in {pair:?}");
    }
    for pair in internals.windows(2) {
        assert_ne!(pair[0], pair[1], "duplicate internal port in {pair:?}");
    }
    for (i, ti) in types.iter().enumerate() {
        for tj in types.iter().skip(i + 1) {
            let shared_external = get_external_port(ti) == get_external_port(tj);
            let shared_internal = get_internal_port(ti) == get_internal_port(tj);
            assert!(
                !(shared_external && shared_internal),
                "{ti:?} and {tj:?} share both ports"
            );
        }
    }
    assert_eq!(get_external_port(&NodeRegistryType::Committer), 42001);
    assert_eq!(get_internal_port(&NodeRegistryType::Committer), 50000);
}

#[test]
fn hmac_matches_manual_computation() {
    let tag = hmac_sha256(SECRET, b"hello");
    assert_eq!(tag, hmac_sha256(SECRET, b"hello"));
    assert_ne!(tag, hmac_sha256(SECRET, b"world"));
}

/// A published test vector: key "Jefe", data "what do ya want for nothing?".
#[test]
fn hmac_known_answer() {
    let tag = hmac_sha256(b"Jefe", b"what do ya want for nothing?");
    assert_eq!(
        hex::encode(tag),
        "5bdcc146bf60754e6a042426089575c75a003f089d2739839dec58b964ec3843"
    );
}

#[test]
fn verify_accepts_correct_secret_rejects_wrong() {
    let (tag, body) = sign_payload(Some(SECRET), b"payload");
    assert!(verify_payload(Some(SECRET), &tag, &body));
    assert!(!verify_payload(Some(b"wrong"), &tag, &body));
}

#[test]
fn verify_none_secret_is_always_true() {
    let (tag, body) = sign_payload(None, b"payload");
    assert_eq!(tag, [0u8; 32]);
    assert_eq!(body, b"payload");
    assert!(verify_payload(None, &tag, &body));
}

#[test]
fn verify_rejects_tampered_payload() {
    let (tag, _body) = sign_payload(Some(SECRET), b"original");
    assert!(!verify_payload(Some(SECRET), &tag, b"tampered"));
    assert!(!verify_payload(Some(SECRET), &tag[..31], b"original"));
}

#[test]
fn frames_round_trip_under_one_secret() {
    for secret in [None, Some(SECRET)] {
        let frame = write_frame(secret, b"request");
        assert_eq!(frame.len(), 4 + 32 + 7);
        let header = [frame[0], frame[1], frame[2], frame[3]];
        assert_eq!(frame_length(&header).unwrap(), 39);
        assert_eq!(unframe(secret, &frame[4..]).unwrap(), b"request");
    }
}

#[test]
fn foreign_and_short_responses_are_refused() {
    let frame = write_frame(Some(SECRET), b"request");
    match unframe(Some(b"other"), &frame[4..]) {
        Err(ConnError::Unauthenticated(msg)) => assert_eq!(msg, "response HMAC verification failed"),
        other => panic!("expected Unauthenticated, got {:?}", other),
    }
    match unframe(Some(SECRET), &frame[4..20]) {
        Err(ConnError::MalformedData(msg)) => assert_eq!(msg, "response shorter than auth tag"),
        other => panic!("expected MalformedData, got {:?}", other),
    }
}

#[test]
fn frame_lengths_are_capped() {
    let at_max = to_be_bytes(MAX_FRAME_SIZE as u64, 4);
    assert_eq!(frame_length(&[at_max[0], at_max[1], at_max[2], at_max[3]]).unwrap(), MAX_FRAME_SIZE);
    let over = to_be_bytes(MAX_FRAME_SIZE as u64 + 1, 4);
    match frame_length(&[over[0], over[1], over[2], over[3]]) {
        Err(ConnError::MalformedData(msg)) => {
            assert_eq!(msg, format!("Frame size {} exceeds maximum {}", MAX_FRAME_SIZE + 1, MAX_FRAME_SIZE))
        }
        other => panic!("expected MalformedData, got {:?}", other),
    }
    assert_eq!(frame_read(Ok(vec![1])).unwrap(), vec![1]);
    assert!(matches!(frame_read(Err("gone".to_string())), Err(ConnError::ReadError(Some(m))) if m == "gone"));
}

#[test]
fn messages_are_framed_with_their_length() {
    assert_eq!(frame_message(b"hello"), b"\x00\x00\x00\x05hello");
    let frame = frame_message(&[7; 300]);
    assert_eq!(frame_length(&[frame[0], frame[1], frame[2], frame[3]]).unwrap(), 300);
}

fn io_report(failure: IoFailure, msg: &str) -> IoReport {
    IoReport { failure, msg: msg.to_string() }
}

#[test]
fn io_failures_are_told_apart() {
    assert!(matches!(map_io_err(io_report(IoFailure::TimedOut, "t"), IoErrorKind::Read), ConnError::Timeout(m) if m == "t"));
    assert!(matches!(map_io_err(io_report(IoFailure::WouldBlock, "b"), IoErrorKind::Write), ConnError::Timeout(m) if m == "b"));
    assert!(matches!(map_io_err(io_report(IoFailure::Other, "r"), IoErrorKind::Read), ConnError::ReadError(Some(m)) if m == "r"));
    assert!(matches!(map_io_err(io_report(IoFailure::Other, "w"), IoErrorKind::Write), ConnError::WriteError(Some(m)) if m == "w"));
}

/// A request to a peer that echoes the payload under its own secret.
fn ask_echo(secret: Option<&[u8]>, peer_secret: Option<&[u8]>, data: &[u8]) -> Result<Vec<u8>, ConnError> {
    let wire: Mutex<Vec<u8>> = Mutex::new(vec![]);
    exchange_frames(
        secret,
        data,
        |frame: &[u8]| {
            let (_, echoed) = sign_payload(peer_secret, &frame[36..]);
            *wire.lock().unwrap() = write_frame(peer_secret, &echoed);
            Ok(())
        },
        || {
            let wire = wire.lock().unwrap();
            Ok([wire[0], wire[1], wire[2], wire[3]])
        },
        |length: usize| {
            let wire = wire.lock().unwrap();
            assert_eq!(wire.len(), 4 + length);
            Ok(wire[4..].to_vec())
        },
    )
}

#[test]
fn test_uds_sender_echo() {
    assert_eq!(ask_echo(None, None, b"hello, uds").unwrap(), b"hello, uds");
}

#[test]
fn test_uds_sender_echo_with_secret() {
    let secret = vec![9, 8, 7, 6, 5, 4, 3, 2, 1, 0];
    assert_eq!(ask_echo(Some(&secret), Some(&secret), b"authed uds").unwrap(), b"authed uds");
}

#[test]
fn test_uds_sender_wrong_secret_rejected() {
    let secret = vec![1u8, 2, 3, 4, 5, 6];
    let wrong = vec![9u8, 9, 9, 9, 9, 9];
    let result = ask_echo(Some(&secret), Some(&wrong), b"hello");
    assert!(
        matches!(result, Err(ConnError::Unauthenticated(_))),
        "expected Unauthenticated, got {:?}",
        result
    );
}

#[test]
fn test_uds_sender_read_timeout() {
    let result = exchange_frames(
        None,
        b"hello",
        |_frame: &[u8]| Ok(()),
        || Err(io_report(IoFailure::WouldBlock, "no response")),
        |_length: usize| panic!("no body follows"),
    );
    assert!(
        matches!(result, Err(ConnError::Timeout(_))),
        "expected Timeout within the read bound, got {:?}",
        result
    );
}

#[test]
fn test_uds_sender_rejects_oversized() {
    let bogus: u32 = (MAX_FRAME_SIZE as u32) + 1;
    let result = exchange_frames(
        None,
        b"x",
        |_frame: &[u8]| Ok(()),
        || Ok(bogus.to_be_bytes()),
        |_length: usize| panic!("an oversized body is not read"),
    );
    assert!(
        matches!(result, Err(ConnError::MalformedData(_))),
        "expected MalformedData for oversized frame, got {:?}",
        result
    );
}

#[test]
fn test_tcp_sender_write_error() {
    let result = exchange_frames(
        None,
        b"test",
        |_frame: &[u8]| Err(io_report(IoFailure::Other, "broken pipe")),
        || panic!("nothing is read"),
        |_length: usize| panic!("nothing is read"),
    );
    assert!(matches!(result, Err(ConnError::WriteError(Some(m))) if m == "broken pipe"));
}

/// Read one frame from bytes.
fn read_frame(wire: &[u8]) -> Result<Vec<u8>, ConnError> {
    get_data(
        || match wire.get(..4) {
            Some(h) => Ok([h[0], h[1], h[2], h[3]]),
            None => Err("failed to fill whole buffer".to_string()),
        },
        |length: usize| match wire[4..].get(..length) {
            Some(body) => Ok(body.to_vec()),
            None => Err("failed to fill whole buffer".to_string()),
        },
    )
}

#[test]
fn tcp_wire_framing_simple() {
    let message = b"hello tcp framing";
    assert_eq!(read_frame(&frame_message(message)).unwrap(), message);
}

#[test]
fn tcp_wire_framing_zero() {
    assert_eq!(read_frame(&frame_message(&[])).unwrap(), Vec::<u8>::new());
}

#[test]
fn tcp_frame_too_large_rejected() {
    let mut wire = to_be_bytes(MAX_FRAME_SIZE as u64 + 1, 4);
    wire.push(0);
    match read_frame(&wire) {
        Err(ConnError::MalformedData(msg)) => {
            assert!(msg.contains("Frame size"));
            assert!(msg.contains("exceeds maximum"));
        }
        other => panic!("expected MalformedData, got {:?}", other),
    }
}

#[test]
fn cut_off_frames_are_read_errors() {
    assert!(matches!(read_frame(&[0, 0]), Err(ConnError::ReadError(Some(_)))));
    assert!(matches!(read_frame(&[0, 0, 0, 3, 1, 2]), Err(ConnError::ReadError(Some(_)))));
}

#[test]
fn conn_errors_read_as_text() {
    assert_eq!(ConnError::IO("gone".into()).to_string(), "IO(gone)");
    assert_eq!(ConnError::MalformedData("bad".into()).to_string(), "MalformedData(bad)");
    assert_eq!(ConnError::CouldNotEstablishStream.to_string(), "CouldNotEstablishStream");
    assert_eq!(ConnError::WriteError(None).to_string(), "WriteError(None)");
    assert_eq!(ConnError::ReadError(Some("x\"y".into())).to_string(), "ReadError(Some(\"x\\\"y\"))");
    assert_eq!(ConnError::ConnectionRejectedByRemote.to_string(), "ConnectionRejectedByRemote");
    assert_eq!(ConnError::DecryptError("n".into()).to_string(), "DecryptError(\"n\")");
    assert_eq!(ConnError::Timeout("t".into()).to_string(), "Timeout(t)");
    assert_eq!(ConnError::Unauthenticated("u".into()).to_string(), "Unauthenticated(u)");
}

#[test]
fn socket_paths_and_their_rules() {
    assert_eq!(socket_file_name("data"), "data.sock");
    assert_eq!(socket_dir_name(true, 1000), "pneumatic");
    assert_eq!(socket_dir_name(false, 1000), "pneumatic-1000");
    assert!(matches!(socket_path_action(PathKind::Absent, "/s"), Ok(false)));
    assert!(matches!(socket_path_action(PathKind::Other, "/s"), Ok(false)));
    assert!(matches!(socket_path_action(PathKind::RegularFile, "/s"), Ok(true)));
    assert!(matches!(socket_path_action(PathKind::Socket, "/s"), Ok(true)));
    match socket_path_action(PathKind::Symlink, "/s") {
        Err(ConnError::MalformedData(msg)) => {
            assert_eq!(msg, "refusing to bind socket path \"/s\": it is a symlink")
        }
        other => panic!("expected MalformedData, got {:?}", other),
    }
    assert!(check_dir_mode("/d", 0o700).is_ok());
    match check_dir_mode("/d", 0o755) {
        Err(ConnError::MalformedData(msg)) => {
            assert_eq!(msg, "data socket dir \"/d\" is not mode 0700 (found 755)")
        }
        other => panic!("expected MalformedData, got {:?}", other),
    }
}

fn remote() -> ConnTarget {
    ConnTarget::Remote(Endpoint { host: "10.0.0.1".to_string(), port: 7 })
}

#[test]
fn factory_plans_senders_and_listeners() {
    let factory = ConnFactory::new().with_secret(Some(vec![1, 2])).with_timeout(50);
    assert_eq!(ConnFactory::new().rw_timeout_millis, DEFAULT_RW_TIMEOUT_MILLIS);
    match factory.get_sender(remote(), false) {
        Ok(SenderPlan::Tcp(sender)) => {
            assert_eq!(sender.addr.host, "10.0.0.1");
            assert_eq!(sender.addr.port, 7);
            assert_eq!(sender.secret, Some(vec![1, 2]));
        }
        other => panic!("expected a TCP sender, got {:?}", other),
    }
    let unix = ConnTarget::Local(LocalTarget::Unix("/s".to_string()));
    match factory.get_sender(unix.clone(), true) {
        Ok(SenderPlan::Uds(sender)) => assert_eq!(sender.path, "/s"),
        other => panic!("expected a UDS sender, got {:?}", other),
    }
    assert!(matches!(factory.get_sender(unix.clone(), false), Err(ConnError::MalformedData(_))));
    assert!(matches!(factory.get_listener(unix.clone(), true), Ok(ListenerPlan::Uds(n)) if n == "/s"));
    assert!(matches!(factory.get_listener(unix, false), Err(ConnError::MalformedData(_))));
    assert!(matches!(factory.get_listener(remote(), true), Ok(ListenerPlan::Tcp(a)) if a.port == 7));
    assert_eq!(UdsSender::new("/s".to_string(), None).path, "/s");
}
