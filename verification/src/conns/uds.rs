//! The data-service channel: payload authentication and the rules for its
//! socket path.
use crate::bytes::{bytes_eq, copy_bytes};
use crate::conns::ConnError;
use crate::primitives::mac_sha256;
use crate::text::wrap;
use vstd::prelude::*;
use vstd::string::StringExecFns;

verus! {

/// Name of the directory that holds the sockets.
pub const SOCKET_DIR_NAME: &'static str = "pneumatic";

/// Permission bits of that directory: reading, writing and entering it are for
/// its owner alone.
pub const SOCKET_DIR_MODE: u32 = 0o700;

/// The tag that goes with a payload: its HMAC under the secret, or zeros where
/// no secret is configured.
pub open spec fn payload_tag(secret: Option<Seq<u8>>, payload: Seq<u8>) -> Seq<u8> {
    match secret {
        Some(key) => crate::primitives::hmac_sha256_tag(key, payload),
        None => Seq::new(32, |i: int| 0u8),
    }
}

/// Whether a tag is accepted for a payload.
pub open spec fn tag_accepted(secret: Option<Seq<u8>>, tag: Seq<u8>, payload: Seq<u8>) -> bool {
    match secret {
        Some(key) => tag.len() == 32 && tag == crate::primitives::hmac_sha256_tag(key, payload),
        None => true,
    }
}

/// Under a secret a tag is accepted for a payload exactly where it is the HMAC of
/// that payload under that secret; without one, every tag is accepted and the tag
/// that is sent is all zeros.
pub proof fn tags_authenticate_payloads(secret: Seq<u8>, tag: Seq<u8>, payload: Seq<u8>, i: int)
    requires
        tag.len() == 32,
        0 <= i < 32,
    ensures
        tag_accepted(Some(secret), tag, payload) <==> tag == crate::primitives::hmac_sha256_tag(
            secret,
            payload,
        ),
        tag_accepted(Some(secret), tag, payload) <==> tag == payload_tag(Some(secret), payload),
        tag_accepted(None, tag, payload),
        payload_tag(None, payload).len() == 32,
        payload_tag(None, payload)[i] == 0,
{
}

/// Under a secret no tag of another size is accepted.
pub proof fn tags_have_one_size(secret: Seq<u8>, tag: Seq<u8>, payload: Seq<u8>)
    requires
        tag.len() != 32,
    ensures
        !tag_accepted(Some(secret), tag, payload),
{
}

/// The socket directory is open to its owner alone: reading, writing and entering
/// it, and nothing for anybody else.
pub proof fn socket_directories_are_private()
    ensures
        SOCKET_DIR_MODE / 64 == 7,
        SOCKET_DIR_MODE % 64 == 0,
{
}

/// The bytes of an optional slice.
pub open spec fn optional_bytes(secret: Option<&[u8]>) -> Option<Seq<u8>> {
    match secret {
        Some(key) => Some(key@),
        None => None,
    }
}

/// Sign `payload` with the shared secret, returning the 32-byte tag and the
/// payload as sent on the wire. Without a secret the tag is a zero buffer. What
/// was signed with a secret is accepted under it.
pub fn sign_payload(secret: Option<&[u8]>, payload: &[u8]) -> (r: ([u8; 32], Vec<u8>))
    ensures
        r.0@ == payload_tag(optional_bytes(secret), payload@),
        r.1@ == payload@,
        tag_accepted(optional_bytes(secret), r.0@, r.1@),
{
    match secret {
        Some(secret) => (hmac_sha256(secret, payload), copy_bytes(payload)),
        None => {
            let zeros: [u8; 32] = [0u8; 32];
            assert(zeros@ =~= Seq::new(32, |i: int| 0u8));
            (zeros, copy_bytes(payload))
        },
    }
}

/// Verify the tag over `payload`. Without a secret every tag is accepted.
pub fn verify_payload(secret: Option<&[u8]>, tag: &[u8], payload: &[u8]) -> (r: bool)
    ensures
        r == tag_accepted(optional_bytes(secret), tag@, payload@),
{
    match secret {
        None => true,
        Some(secret) => {
            if tag.len() != 32 {
                return false;
            }
            let expected = hmac_sha256(secret, payload);
            bytes_eq(tag, expected.as_slice())
        },
    }
}

/// HMAC-SHA256 of `msg` under `secret`.
pub fn hmac_sha256(secret: &[u8], msg: &[u8]) -> (r: [u8; 32])
    ensures
        r@ == crate::primitives::hmac_sha256_tag(secret@, msg@),
{
    mac_sha256(secret, msg)
}

/// The name of the directory that holds the sockets: in the runtime directory of
/// the user it has a name of its own, elsewhere the user id tells users apart.
pub fn socket_dir_name(in_runtime_dir: bool, uid: u32) -> (r: String)
    ensures
        r@ == (if in_runtime_dir {
            SOCKET_DIR_NAME@
        } else {
            SOCKET_DIR_NAME@ + "-"@ + crate::text::decimal(uid as nat)
        }),
{
    if in_runtime_dir {
        SOCKET_DIR_NAME.to_owned()
    } else {
        wrap(SOCKET_DIR_NAME, "-", &crate::text::decimal_string(uid as u64))
    }
}

/// The name of the socket file of a data service.
pub fn socket_file_name(name: &str) -> (r: String)
    ensures
        r@ == name@ + ".sock"@,
{
    let mut file = name.to_owned();
    file.append(".sock");
    file
}

/// What is found at a socket path before binding it.
#[derive(Debug, Clone, Copy, PartialEq, Eq, Structural)]
pub enum PathKind {
    Absent,
    Symlink,
    RegularFile,
    Socket,
    Other,
}

/// `r` is the judgement on a socket path.
pub open spec fn path_judged(kind: PathKind, r: Result<bool, ConnError>) -> bool {
    match kind {
        PathKind::Symlink => r matches Err(ConnError::MalformedData(_)),
        PathKind::RegularFile => r == Ok::<bool, ConnError>(true),
        PathKind::Socket => r == Ok::<bool, ConnError>(true),
        PathKind::Absent => r == Ok::<bool, ConnError>(false),
        PathKind::Other => r == Ok::<bool, ConnError>(false),
    }
}

/// A symlink, and nothing else, keeps a path from being bound; only a file or a
/// stale socket is removed from it.
pub proof fn symlinks_are_never_bound(kind: PathKind, r: Result<bool, ConnError>)
    requires
        path_judged(kind, r),
    ensures
        r is Err <==> kind == PathKind::Symlink,
        r == Ok::<bool, ConnError>(true) <==> kind == PathKind::RegularFile || kind
            == PathKind::Socket,
        r == Ok::<bool, ConnError>(false) <==> kind == PathKind::Absent || kind == PathKind::Other,
{
}

/// Whether the path can be bound, and if so whether what lies there has to be
/// removed first. A symlink is refused: whoever planted it could redirect the
/// bind.
pub fn socket_path_action(kind: PathKind, path: &str) -> (r: Result<bool, ConnError>)
    ensures
        match r {
            Ok(remove) => kind != PathKind::Symlink && remove == (kind == PathKind::RegularFile
                || kind == PathKind::Socket),
            Err(ConnError::MalformedData(msg)) => kind == PathKind::Symlink && msg@
                == "refusing to bind socket path "@ + crate::text::quoted(path@)
                + ": it is a symlink"@,
            Err(_) => false,
        },
        path_judged(kind, r),
{
    match kind {
        PathKind::Symlink => Err(
            ConnError::MalformedData(
                wrap(
                    "refusing to bind socket path ",
                    &crate::text::quote(path),
                    ": it is a symlink",
                ),
            ),
        ),
        PathKind::RegularFile => Ok(true),
        PathKind::Socket => Ok(true),
        PathKind::Absent => Ok(false),
        PathKind::Other => Ok(false),
    }
}

/// Permission bits in three octal digits.
pub open spec fn octal3(mode: u32) -> Seq<char> {
    seq![
        crate::text::digit((mode / 64 % 8) as nat),
        crate::text::digit((mode / 8 % 8) as nat),
        crate::text::digit((mode % 8) as nat),
    ]
}

fn octal3_string(mode: u32) -> (r: String)
    ensures
        r@ == octal3(mode),
{
    let mut r = crate::text::decimal_string((mode / 64 % 8) as u64);
    r.append(&crate::text::decimal_string((mode / 8 % 8) as u64));
    r.append(&crate::text::decimal_string((mode % 8) as u64));
    assert(r@ =~= octal3(mode));
    r
}

/// Check the permission bits that the socket directory ended up with.
pub fn check_dir_mode(dir: &str, mode: u32) -> (r: Result<(), ConnError>)
    requires
        mode < 512,
    ensures
        match r {
            Ok(_) => mode == SOCKET_DIR_MODE,
            Err(ConnError::MalformedData(msg)) => mode != SOCKET_DIR_MODE && msg@
                == "data socket dir "@ + crate::text::quoted(dir@) + " is not mode 0700 (found "@
                + octal3(mode) + ")"@,
            Err(_) => false,
        },
{
    if mode == SOCKET_DIR_MODE {
        Ok(())
    } else {
        let mut msg = wrap(
            "data socket dir ",
            &crate::text::quote(dir),
            " is not mode 0700 (found ",
        );
        msg.append(&octal3_string(mode));
        msg.append(")");
        Err(ConnError::MalformedData(msg))
    }
}

} // verus!
