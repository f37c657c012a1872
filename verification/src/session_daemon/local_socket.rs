//! Rules of the daemon's local socket: where it may lie, what may be in its
//! place, and who may connect.
use vstd::prelude::*;
use vstd::string::*;
use crate::foreign::{fresh_uuid, uuid_text};
use crate::text::{decimal, decimal_string, string_of};

verus! {

broadcast use vstd::string::group_string_axioms;

/// How an operation on the socket was refused.
#[derive(Debug, Clone, Copy, PartialEq, Eq, Structural)]
pub enum SocketErrorKind {
    InvalidInput,
    PermissionDenied,
    AddrInUse,
    AlreadyExists,
}

#[derive(Debug, PartialEq, Eq)]
pub struct SocketError {
    pub kind: SocketErrorKind,
    pub message: String,
}

pub open spec fn refused(error: SocketError, kind: SocketErrorKind, text: Seq<char>) -> bool {
    error.kind == kind && error.message@ == text
}

fn socket_error(kind: SocketErrorKind, text: &str) -> (error: SocketError)
    ensures
        refused(error, kind, text@),
{
    SocketError { kind, message: text.to_owned() }
}

pub open spec fn octal_digit(d: nat) -> char {
    ('0' as u32 + d) as char
}

/// Octal notation without leading zeros.
pub open spec fn octal(n: nat) -> Seq<char>
    decreases n,
{
    if n < 8 {
        seq![octal_digit(n)]
    } else {
        octal(n / 8).push(octal_digit(n % 8))
    }
}

fn octal_char(d: u32) -> (c: char)
    requires
        d < 8,
    ensures
        c == octal_digit(d as nat),
{
    if d == 0 {
        '0'
    } else if d == 1 {
        '1'
    } else if d == 2 {
        '2'
    } else if d == 3 {
        '3'
    } else if d == 4 {
        '4'
    } else if d == 5 {
        '5'
    } else if d == 6 {
        '6'
    } else {
        '7'
    }
}

fn octal_chars(n: u32) -> (chars: Vec<char>)
    ensures
        chars@ == octal(n as nat),
    decreases n,
{
    if n < 8 {
        let mut chars: Vec<char> = Vec::new();
        chars.push(octal_char(n));
        assert(chars@ =~= octal(n as nat));
        chars
    } else {
        let mut chars = octal_chars(n / 8);
        chars.push(octal_char(n % 8));
        chars
    }
}

fn octal_string(n: u32) -> (text: String)
    ensures
        text@ == octal(n as nat),
{
    let chars = octal_chars(n);
    let text = string_of(chars.as_slice(), 0, chars.len());
    assert(text@ =~= chars@);
    text
}

/// Whether the group or the world may write.
pub open spec fn writable_by_others(mode: u32) -> bool {
    mode & 0o022 != 0
}

pub open spec fn parent_text(owner_uid: u32, effective_uid: u32, mode: u32) -> Seq<char> {
    "session socket parent must be owner-controlled and not group/world writable (owner="@
        + decimal(owner_uid as nat) + ", effective_uid="@ + decimal(effective_uid as nat)
        + ", mode="@ + octal((mode & 0o777) as nat) + ")"@
}

/// A socket lies in a directory that only the daemon's user can change.
pub fn check_socket_parent(owner_uid: u32, effective_uid: u32, mode: u32) -> (result: Result<
    (),
    SocketError,
>)
    ensures
        if owner_uid != effective_uid || writable_by_others(mode) {
            result matches Err(error) && refused(
                error,
                SocketErrorKind::PermissionDenied,
                parent_text(owner_uid, effective_uid, mode),
            )
        } else {
            result is Ok
        },
{
    if owner_uid != effective_uid || mode & 0o022 != 0 {
        let mut message =
            "session socket parent must be owner-controlled and not group/world writable (owner=".to_owned();
        let owner = decimal_string(owner_uid as u64);
        message.append(owner.as_str());
        message.append(", effective_uid=");
        let effective = decimal_string(effective_uid as u64);
        message.append(effective.as_str());
        message.append(", mode=");
        let bits = octal_string(mode & 0o777);
        message.append(bits.as_str());
        message.append(")");
        return Err(SocketError { kind: SocketErrorKind::PermissionDenied, message });
    }
    Ok(())
}

/// A socket's path has a directory.
pub fn missing_parent() -> (error: SocketError)
    ensures
        refused(error, SocketErrorKind::InvalidInput, "session socket path has no parent"@),
{
    socket_error(SocketErrorKind::InvalidInput, "session socket path has no parent")
}

/// What a lock that another daemon holds is reported as; any other failure of
/// the lock is reported as it came.
pub fn lock_held(would_block: bool) -> (error: Option<SocketError>)
    ensures
        match error {
            Some(error) => would_block && refused(
                error,
                SocketErrorKind::AddrInUse,
                "session daemon socket lock is already held"@,
            ),
            None => !would_block,
        },
{
    if would_block {
        Some(
            socket_error(
                SocketErrorKind::AddrInUse,
                "session daemon socket lock is already held",
            ),
        )
    } else {
        None
    }
}

/// Whether what stands in the socket's place may be replaced: a socket of the
/// same user that nobody listens on.
pub fn check_replaceable(is_socket: bool, owner_uid: u32, effective_uid: u32, listening: bool) -> (
    result: Result<(), SocketError>)
    ensures
        if !is_socket {
            result matches Err(error) && refused(
                error,
                SocketErrorKind::AlreadyExists,
                "refusing to replace non-socket session path"@,
            )
        } else if owner_uid != effective_uid {
            result matches Err(error) && refused(
                error,
                SocketErrorKind::PermissionDenied,
                "refusing to replace a session socket owned by another user"@,
            )
        } else if listening {
            result matches Err(error) && refused(
                error,
                SocketErrorKind::AddrInUse,
                "session daemon is already listening"@,
            )
        } else {
            result is Ok
        },
{
    if !is_socket {
        return Err(
            socket_error(
                SocketErrorKind::AlreadyExists,
                "refusing to replace non-socket session path",
            ),
        );
    }
    if owner_uid != effective_uid {
        return Err(
            socket_error(
                SocketErrorKind::PermissionDenied,
                "refusing to replace a session socket owned by another user",
            ),
        );
    }
    if listening {
        return Err(
            socket_error(SocketErrorKind::AddrInUse, "session daemon is already listening"),
        );
    }
    Ok(())
}

/// A file as it was made, to be told apart from one that took its place.
#[derive(Debug, Clone, Copy, PartialEq, Eq, Structural)]
pub struct FileIdentity {
    pub device: u64,
    pub inode: u64,
}

/// Whether a file may be removed on leaving: it is of the kind that was made
/// and it is the very one.
pub fn may_remove(made: FileIdentity, found: FileIdentity, right_kind: bool) -> (remove: bool)
    ensures
        remove == (right_kind && found == made),
{
    right_kind && found.device == made.device && found.inode == made.inode
}

/// Only the socket's owner may connect.
pub fn verify_peer_owner(peer_uid: u32, owner_uid: u32) -> (result: Result<(), SocketError>)
    ensures
        if peer_uid != owner_uid {
            result matches Err(error) && refused(
                error,
                SocketErrorKind::PermissionDenied,
                "session socket peer is owned by another user"@,
            )
        } else {
            result is Ok
        },
{
    if peer_uid != owner_uid {
        return Err(
            socket_error(
                SocketErrorKind::PermissionDenied,
                "session socket peer is owned by another user",
            ),
        );
    }
    Ok(())
}

/// The kinds of a failed accept that matter.
#[derive(Debug, Clone, Copy, PartialEq, Eq, Structural)]
pub enum AcceptErrorKind {
    Interrupted,
    WouldBlock,
    ConnectionAborted,
    ConnectionReset,
    Other,
}

/// Whether accepting goes on after an error: where the error passed with the
/// connection, or where file descriptors ran out. `exhausted` holds the codes
/// that say so.
pub fn accept_error_is_recoverable(
    kind: AcceptErrorKind,
    raw_os_error: Option<i32>,
    exhausted: (i32, i32),
) -> (recoverable: bool)
    ensures
        recoverable == (kind != AcceptErrorKind::Other || (raw_os_error matches Some(code) && (code
            == exhausted.0 || code == exhausted.1))),
{
    kind != AcceptErrorKind::Other || match raw_os_error {
        Some(code) => code == exhausted.0 || code == exhausted.1,
        None => false,
    }
}

/// The bytes of a path with a text behind them. A path need not be text.
fn with_suffix(path: &[u8], suffix: &str) -> (name: Vec<u8>)
    ensures
        name@ == path@ + suffix.spec_bytes(),
{
    let mut name: Vec<u8> = Vec::new();
    name.extend_from_slice(path);
    assert(name@ =~= path@);
    name.extend_from_slice(suffix.as_bytes());
    assert(name@ =~= path@ + suffix.spec_bytes());
    name
}

/// Where a daemon says which process serves a socket.
pub fn instance_metadata_path(socket_path: &[u8]) -> (path: Vec<u8>)
    ensures
        path@ == socket_path@ + ".pid".spec_bytes(),
{
    with_suffix(socket_path, ".pid")
}

/// The lock that a socket's daemon holds.
pub fn socket_lock_path(socket_path: &[u8]) -> (path: Vec<u8>)
    ensures
        path@ == socket_path@ + ".lock".spec_bytes(),
{
    with_suffix(socket_path, ".lock")
}

/// Where a file is written before it takes its name: under a random name beside it.
pub fn temporary_path(path: &[u8]) -> (temporary: Vec<u8>)
    ensures
        exists|suffix: &str| #[trigger]
            temporary_suffix(suffix@) && temporary@ == path@ + suffix.spec_bytes(),
{
    let uuid = fresh_uuid();
    let mut suffix = ".".to_owned();
    suffix.append(uuid.as_str());
    suffix.append(".tmp");
    assert(suffix@ =~= "."@ + uuid@ + ".tmp"@);
    assert(uuid_text(uuid@));
    assert(temporary_suffix(suffix@));
    with_suffix(path, suffix.as_str())
}

/// What a temporary file's name ends in: a UUID between a dot and `.tmp`.
pub open spec fn temporary_suffix(suffix: Seq<char>) -> bool {
    exists|uuid: Seq<char>| #[trigger] uuid_text(uuid) && suffix == "."@ + uuid + ".tmp"@
}

/// Milliseconds since the epoch, at most what 64 bits hold; a time before the
/// epoch counts as zero.
pub fn system_time_unix_ms(nanos_since_epoch: Option<u128>) -> (millis: u64)
    ensures
        millis == match nanos_since_epoch {
            Some(nanos) => if nanos / 1_000_000 > u64::MAX {
                u64::MAX as int
            } else {
                (nanos / 1_000_000) as int
            },
            None => 0,
        },
{
    match nanos_since_epoch {
        Some(nanos) => {
            let millis: u128 = nanos / 1_000_000;
            if millis > u64::MAX as u128 {
                u64::MAX
            } else {
                millis as u64
            }
        },
        None => 0,
    }
}

/// Others can write where the group can or where anyone can.
pub proof fn law_group_and_world_are_others(mode: u32)
    ensures
        writable_by_others(mode) <==> mode & 0o020 != 0 || mode & 0o002 != 0,
{
    assert(mode & 0o022 != 0 <==> mode & 0o020 != 0 || mode & 0o002 != 0) by (bit_vector);
}

/// The number that octal digits stand for.
pub open spec fn octal_value(digits: Seq<char>) -> nat
    decreases digits.len(),
{
    if digits.len() == 0 {
        0
    } else {
        8 * octal_value(digits.drop_last()) + (digits.last() as u32 - '0' as u32) as nat
    }
}

/// Octal notation reads back as its number, in digits below eight, and has no
/// zero in front but for zero itself.
pub proof fn law_octal_reads_back(n: nat)
    ensures
        octal_value(octal(n)) == n,
        octal(n).len() > 0,
        forall|i: int| 0 <= i < octal(n).len() ==> '0' <= #[trigger] octal(n)[i] <= '7',
        n > 0 ==> octal(n)[0] != '0',
    decreases n,
{
    if n < 8 {
        reveal_with_fuel(octal_value, 2);
        assert(octal(n).drop_last() =~= Seq::<char>::empty());
    } else {
        law_octal_reads_back(n / 8);
        assert(octal(n).drop_last() =~= octal(n / 8));
        assert(octal(n)[0] == octal(n / 8)[0]);
    }
}

/// A refusal is of its kind and says its reason.
pub proof fn law_refusals_say_their_reason(
    error: SocketError,
    kind: SocketErrorKind,
    text: Seq<char>,
)
    requires
        refused(error, kind, text),
    ensures
        error.kind == kind,
        error.message@ == text,
{
}

} // verus!
