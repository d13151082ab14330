//! Network shares and devices, and the helper process that talks to them.
use vstd::prelude::*;

use crate::errors;
use crate::errors::{ErrorKind, IoError};
use crate::network;
use crate::text;
use crate::text::{encode_text, push_decimal, push_text, text_of};
use crate::wide::{push_units, take_before_nul, units_copy, BACKSLASH, COLON, QUESTION};
use crate::wide;
use crate::bytes;
use crate::bytes::push_unit_bytes;
use crate::winpath;
use crate::winpath::{unit_is_sep, units_copy_all};

pub mod codec;
pub mod directory;
pub mod entry;
pub mod helper;
pub mod mutation;
pub mod places;
pub mod process;
pub mod results;
pub mod stream;

verus! {

#[derive(Debug, Clone, PartialEq, Eq)]
pub struct NetworkLocation {
    pub label: String,
    pub target: Option<Vec<u16>>,
    pub shell_path: Vec<u16>,
    pub shell_identity: Option<Vec<u16>>,
}

#[derive(Debug, Clone, PartialEq, Eq)]
pub struct NetworkRootItem {
    pub label: String,
    pub target: Vec<u16>,
    pub is_directory: bool,
}

#[derive(Debug, Clone, PartialEq, Eq)]
pub struct NetworkDevice {
    pub label: String,
    pub target: Vec<u16>,
    pub is_directory: bool,
}

#[derive(Debug, Clone, Copy, PartialEq, Eq, Structural)]
pub struct NetworkResult {
    pub code: u32,
}

#[derive(Debug, Clone, Copy, PartialEq, Eq, Structural)]
pub enum NetworkAuthErrorKind {
    AccessDenied,
    LogonFailure,
    CredentialConflict,
    BadPath,
    Unavailable,
    Other,
}

#[derive(Debug, Clone, Copy, PartialEq, Eq, Structural)]
pub struct NetworkAuthError {
    pub kind: NetworkAuthErrorKind,
    pub code: u32,
}

/// The line of the log that says that something happened.
pub fn record_runtime_event(timestamp_ms: u64, pid: u32, event: &str) -> (line: String)
    ensures
        line@ == "{\"timestamp_ms\":"@ + text::decimal(timestamp_ms as nat) + ",\"pid\":"@
            + text::decimal(pid as nat) + ",\"event\":\""@ + event@ + "\"}\n"@,
{
    let mut line = text_of("{\"timestamp_ms\":");
    push_decimal(&mut line, timestamp_ms);
    push_text(&mut line, ",\"pid\":");
    push_decimal(&mut line, pid as u64);
    push_text(&mut line, ",\"event\":\"");
    push_text(&mut line, event);
    push_text(&mut line, "\"}\n");
    line
}

// ---- authentication errors ----

pub const NO_ERROR: u32 = 0;

pub const ERROR_ACCESS_DENIED: u32 = 5;

pub const ERROR_GEN_FAILURE: u32 = 31;

pub const ERROR_BAD_NETPATH: u32 = 53;

pub const ERROR_BAD_NET_NAME: u32 = 67;

pub const ERROR_INVALID_PASSWORD: u32 = 86;

pub const ERROR_INVALID_NAME: u32 = 123;

pub const ERROR_MORE_DATA: u32 = 234;

pub const ERROR_BAD_DEVICE: u32 = 1200;

pub const ERROR_CONNECTION_UNAVAIL: u32 = 1201;

pub const ERROR_NO_NET_OR_BAD_PATH: u32 = 1203;

pub const ERROR_SESSION_CREDENTIAL_CONFLICT: u32 = 1219;

pub const ERROR_NO_NETWORK: u32 = 1222;

pub const ERROR_CANCELLED: u32 = 1223;

pub const ERROR_CONNECTION_REFUSED: u32 = 1225;

pub const ERROR_NETWORK_UNREACHABLE: u32 = 1231;

pub const ERROR_HOST_UNREACHABLE: u32 = 1232;

pub const ERROR_PROTOCOL_UNREACHABLE: u32 = 1233;

pub const ERROR_LOGON_FAILURE: u32 = 1326;

pub const ERROR_TIMEOUT: u32 = 1460;

pub const ERROR_BAD_USERNAME: u32 = 2202;

pub const ERROR_NOT_CONNECTED: u32 = 2250;

/// The kind of failure that a system number stands for.
pub open spec fn auth_kind(code: u32) -> NetworkAuthErrorKind {
    if code == ERROR_ACCESS_DENIED {
        NetworkAuthErrorKind::AccessDenied
    } else if code == ERROR_LOGON_FAILURE || code == ERROR_BAD_USERNAME || code
        == ERROR_INVALID_PASSWORD {
        NetworkAuthErrorKind::LogonFailure
    } else if code == ERROR_SESSION_CREDENTIAL_CONFLICT {
        NetworkAuthErrorKind::CredentialConflict
    } else if code == ERROR_BAD_NET_NAME || code == ERROR_BAD_NETPATH || code
        == ERROR_NO_NET_OR_BAD_PATH || code == ERROR_INVALID_NAME || code == ERROR_BAD_DEVICE {
        NetworkAuthErrorKind::BadPath
    } else if code == ERROR_NETWORK_UNREACHABLE || code == ERROR_NO_NETWORK || code
        == ERROR_CONNECTION_UNAVAIL || code == ERROR_CONNECTION_REFUSED || code
        == ERROR_HOST_UNREACHABLE || code == ERROR_PROTOCOL_UNREACHABLE || code
        == ERROR_NOT_CONNECTED {
        NetworkAuthErrorKind::Unavailable
    } else {
        NetworkAuthErrorKind::Other
    }
}

pub open spec fn auth_error(code: u32) -> NetworkAuthError {
    NetworkAuthError { kind: auth_kind(code), code }
}

pub fn network_auth_error(code: u32) -> (error: NetworkAuthError)
    ensures
        error == auth_error(code),
{
    let kind = match code {
        5 => NetworkAuthErrorKind::AccessDenied,
        1326 | 2202 | 86 => NetworkAuthErrorKind::LogonFailure,
        1219 => NetworkAuthErrorKind::CredentialConflict,
        67 | 53 | 1203 | 123 | 1200 => NetworkAuthErrorKind::BadPath,
        1231 | 1222 | 1201 | 1225 | 1232 | 1233 | 2250 => NetworkAuthErrorKind::Unavailable,
        _ => NetworkAuthErrorKind::Other,
    };
    NetworkAuthError { kind, code }
}

pub open spec fn auth_kind_name(kind: NetworkAuthErrorKind) -> Seq<char> {
    match kind {
        NetworkAuthErrorKind::AccessDenied => "AccessDenied"@,
        NetworkAuthErrorKind::LogonFailure => "LogonFailure"@,
        NetworkAuthErrorKind::CredentialConflict => "CredentialConflict"@,
        NetworkAuthErrorKind::BadPath => "BadPath"@,
        NetworkAuthErrorKind::Unavailable => "Unavailable"@,
        NetworkAuthErrorKind::Other => "Other"@,
    }
}

impl NetworkAuthErrorKind {
    pub fn name(self) -> (name: &'static str)
        ensures
            name@ == auth_kind_name(self),
    {
        match self {
            NetworkAuthErrorKind::AccessDenied => "AccessDenied",
            NetworkAuthErrorKind::LogonFailure => "LogonFailure",
            NetworkAuthErrorKind::CredentialConflict => "CredentialConflict",
            NetworkAuthErrorKind::BadPath => "BadPath",
            NetworkAuthErrorKind::Unavailable => "Unavailable",
            NetworkAuthErrorKind::Other => "Other",
        }
    }
}

impl NetworkAuthError {
    pub fn to_text(&self) -> (text: String)
        ensures
            text@ == "network authentication failed: "@ + auth_kind_name(self.kind) + " ("@
                + text::decimal(self.code as nat) + ")"@,
    {
        let mut text = text_of("network authentication failed: ");
        push_text(&mut text, self.kind.name());
        push_text(&mut text, " (");
        push_decimal(&mut text, self.code as u64);
        push_text(&mut text, ")");
        text
    }
}

// ---- mapped drives ----

/// The path begins with a drive: a letter and a colon.
pub open spec fn names_drive(s: Seq<u16>) -> bool {
    s.len() >= 2 && winpath::is_letter(s[0]) && s[1] == COLON
}

/// The name under which the system knows the drive of a path, with its end mark, where the path
/// has one.
pub fn drive_name(path: &[u16]) -> (name: Option<Vec<u16>>)
    ensures
        name is Some == names_drive(path@),
        name matches Some(name) ==> name@ == seq![path@[0], COLON, 0u16],
{
    if path.len() < 2 || path[1] != COLON {
        return None;
    }
    let letter: u16 = path[0];
    if !((0x41 <= letter && letter <= 0x5a) || (0x61 <= letter && letter <= 0x7a)) {
        return None;
    }
    let name = vec![letter, COLON, 0];
    assert(name@ =~= seq![path@[0], COLON, 0u16]);
    Some(name)
}

/// What follows when the system was asked where a drive leads.
#[derive(Debug, Clone, Copy, PartialEq, Eq, Structural)]
pub enum ConnectionStep {
    Answered,
    Enlarge(u32),
    Failed(u32),
}

/// Where the buffer was too small, it is asked again with twice the room and no less than 512
/// units.
pub fn connection_step(result: u32, capacity: u32) -> (step: ConnectionStep)
    ensures
        step == if result == ERROR_MORE_DATA {
            ConnectionStep::Enlarge(
                if 2 * capacity > u32::MAX {
                    u32::MAX
                } else if capacity < 256 {
                    512
                } else {
                    (2 * capacity) as u32
                },
            )
        } else if result != NO_ERROR {
            ConnectionStep::Failed(result)
        } else {
            ConnectionStep::Answered
        },
{
    if result == ERROR_MORE_DATA {
        if capacity > 0x7fff_ffff {
            ConnectionStep::Enlarge(0xffff_ffff)
        } else if capacity < 256 {
            ConnectionStep::Enlarge(512)
        } else {
            ConnectionStep::Enlarge(2 * capacity)
        }
    } else if result != NO_ERROR {
        ConnectionStep::Failed(result)
    } else {
        ConnectionStep::Answered
    }
}

/// Where the system says that a drive leads.
#[derive(Debug, Clone, PartialEq, Eq)]
pub enum DriveAnswer {
    Remote(Vec<u16>),
    Failed(IoError),
}

/// The first position from `from` on that is no separator.
pub open spec fn after_seps(s: Seq<u16>, from: int) -> int
    decreases s.len() - from,
{
    if 0 <= from < s.len() && winpath::is_sep(s[from]) {
        after_seps(s, from + 1)
    } else {
        from
    }
}

fn skip_seps(s: &[u16], from: usize) -> (at: usize)
    requires
        from <= s@.len(),
    ensures
        at == after_seps(s@, from as int),
        from <= at <= s@.len(),
{
    let mut at: usize = from;
    while at < s.len() && unit_is_sep(s[at])
        invariant
            from <= at <= s@.len(),
            after_seps(s@, from as int) == after_seps(s@, at as int),
        decreases s@.len() - at,
    {
        at += 1;
    }
    at
}

/// The path at the other end of a drive: where the drive leads, then what follows the drive in
/// the path.
pub open spec fn remote_path(s: Seq<u16>, remote: Seq<u16>) -> Seq<u16> {
    let base = wide::before_nul(remote);
    let suffix = s.subrange(after_seps(s, 2), s.len() as int);
    if suffix.len() == 0 {
        base
    } else if base.len() > 0 && base.last() == BACKSLASH {
        base + suffix
    } else {
        base + seq![BACKSLASH] + suffix
    }
}

/// The network path that a path on a drive stands for. A path without a drive stays as it is, and
/// nothing is asked for it.
pub fn network_drive_to_unc(path: &[u16], answer: &DriveAnswer) -> (result: Result<
    Vec<u16>,
    IoError,
>)
    ensures
        match result {
            Ok(found) => if !names_drive(path@) {
                found@ == path@
            } else {
                answer matches DriveAnswer::Remote(remote) && found@ == remote_path(
                    path@,
                    remote@,
                )
            },
            Err(error) => names_drive(path@) && *answer == DriveAnswer::Failed(error),
        },
{
    if drive_name(path).is_none() {
        return Ok(units_copy_all(path));
    }
    match answer {
        DriveAnswer::Failed(error) => Err(copy_error(error)),
        DriveAnswer::Remote(remote) => {
            let mut output = take_before_nul(remote);
            let start: usize = skip_seps(path, 2);
            let n: usize = path.len();
            if start < n {
                let length: usize = output.len();
                if length == 0 || output[length - 1] != BACKSLASH {
                    output.push(BACKSLASH);
                }
                let suffix = units_copy(path, start, n);
                push_units(&mut output, &suffix);
            }
            assert(output@ =~= remote_path(path@, remote@));
            Ok(output)
        },
    }
}

fn copy_error(error: &IoError) -> (copy: IoError)
    ensures
        copy == *error,
{
    IoError { kind: error.kind, code: error.code, message: error.message.clone() }
}

// ---- shares ----

/// What follows the beginning of a network path.
pub open spec fn share_body(s: Seq<u16>) -> Option<Seq<u16>> {
    if network::has_verbatim_start(s) && s.len() >= 8 && network::is_either_case(s[4], 0x55)
        && network::is_either_case(s[5], 0x4e) && network::is_either_case(s[6], 0x43)
        && winpath::is_sep(s[7]) {
        Some(s.subrange(8, s.len() as int))
    } else if s.len() >= 2 && s[0] == BACKSLASH && s[1] == BACKSLASH {
        Some(s.subrange(2, s.len() as int))
    } else {
        None
    }
}

/// The server and the share that a network path begins with, or what is missing.
pub open spec fn share_of(s: Seq<u16>) -> Result<Seq<u16>, Seq<char>> {
    match share_body(s) {
        None => Err("network path must be UNC"@),
        Some(body) => {
            let server = after_seps(body, 0);
            let server_end = winpath::piece_end(body, server, false);
            let share = after_seps(body, server_end);
            let share_end = winpath::piece_end(body, share, false);
            if server >= body.len() {
                Err("missing server"@)
            } else if share >= body.len() {
                Err("missing share"@)
            } else {
                Ok(
                    seq![BACKSLASH, BACKSLASH] + body.subrange(server, server_end)
                        + seq![BACKSLASH] + body.subrange(share, share_end),
                )
            }
        },
    }
}

fn part_end(s: &[u16], from: usize) -> (end: usize)
    requires
        from <= s@.len(),
    ensures
        end == winpath::piece_end(s@, from as int, false),
        from <= end <= s@.len(),
{
    let mut end: usize = from;
    while end < s.len() && !unit_is_sep(s[end])
        invariant
            from <= end <= s@.len(),
            winpath::piece_end(s@, from as int, false) == winpath::piece_end(
                s@,
                end as int,
                false,
            ),
        decreases s@.len() - end,
    {
        end += 1;
    }
    end
}

fn share_body_units(s: &[u16]) -> (body: Option<Vec<u16>>)
    ensures
        body is Some == share_body(s@) is Some,
        body matches Some(body) ==> share_body(s@) == Some(body@),
{
    let n: usize = s.len();
    if n < 2 || s[0] != BACKSLASH || s[1] != BACKSLASH {
        return None;
    }
    if n >= 8 && s[2] == QUESTION && s[3] == BACKSLASH && (s[4] == 0x55 || s[4] == 0x75) && (s[5]
        == 0x4e || s[5] == 0x6e) && (s[6] == 0x43 || s[6] == 0x63) && unit_is_sep(s[7]) {
        return Some(units_copy(s, 8, n));
    }
    Some(units_copy(s, 2, n))
}

/// The root of the share that a network path leads into.
pub fn share_root(path: &[u16]) -> (result: Result<Vec<u16>, IoError>)
    ensures
        match (result, share_of(path@)) {
            (Ok(root), Ok(found)) => root@ == found,
            (Err(error), Err(message)) => errors::fails_with(
                error,
                ErrorKind::InvalidInput,
                message,
            ),
            _ => false,
        },
{
    let body = match share_body_units(path) {
        Some(body) => body,
        None => {
            return Err(IoError::new(ErrorKind::InvalidInput, "network path must be UNC"));
        },
    };
    let n: usize = body.len();
    let server: usize = skip_seps(&body, 0);
    if server >= n {
        return Err(IoError::new(ErrorKind::InvalidInput, "missing server"));
    }
    let server_end: usize = part_end(&body, server);
    let share: usize = skip_seps(&body, server_end);
    if share >= n {
        return Err(IoError::new(ErrorKind::InvalidInput, "missing share"));
    }
    let share_end: usize = part_end(&body, share);
    let mut root = vec![BACKSLASH, BACKSLASH];
    assert(root@ =~= seq![BACKSLASH, BACKSLASH]);
    let server_name = units_copy(&body, server, server_end);
    push_units(&mut root, &server_name);
    root.push(BACKSLASH);
    let share_name = units_copy(&body, share, share_end);
    push_units(&mut root, &share_name);
    assert(root@ =~= seq![BACKSLASH, BACKSLASH] + body@.subrange(server as int, server_end as int)
        + seq![BACKSLASH] + body@.subrange(share as int, share_end as int));
    Ok(root)
}

/// The share root of a path that may begin with a drive.
pub open spec fn normalized_root(path: Seq<u16>, answer: DriveAnswer) -> Result<
    Seq<u16>,
    NetworkAuthError,
> {
    let unc = if !names_drive(path) {
        Ok(path)
    } else {
        match answer {
            DriveAnswer::Remote(remote) => Ok(remote_path(path, remote@)),
            DriveAnswer::Failed(error) => Err(
                auth_error(
                    match error.code {
                        Some(code) => code as u32,
                        None => ERROR_BAD_NETPATH,
                    },
                ),
            ),
        }
    };
    match unc {
        Err(error) => Err(error),
        Ok(unc) => match share_of(unc) {
            Ok(root) => Ok(root),
            Err(_) => Err(auth_error(ERROR_BAD_NETPATH)),
        },
    }
}

pub fn normalize_share_root(path: &[u16], answer: &DriveAnswer) -> (result: Result<
    Vec<u16>,
    NetworkAuthError,
>)
    ensures
        match (result, normalized_root(path@, *answer)) {
            (Ok(root), Ok(found)) => root@ == found,
            (Err(error), Err(found)) => error == found,
            _ => false,
        },
{
    match network_drive_to_unc(path, answer) {
        Ok(unc) => match share_root(&unc) {
            Ok(root) => Ok(root),
            Err(_) => Err(network_auth_error(ERROR_BAD_NETPATH)),
        },
        Err(error) => match error.code {
            Some(code) => Err(network_auth_error(#[verifier::truncate] (code as u32))),
            None => Err(network_auth_error(ERROR_BAD_NETPATH)),
        },
    }
}

/// The units with an end mark.
pub fn wide_null(units: &[u16]) -> (marked: Vec<u16>)
    ensures
        marked@ == units@.push(0),
{
    let mut marked = units_copy_all(units);
    marked.push(0);
    marked
}

// ---- connections ----

/// What the system is handed to connect to a share.
#[derive(Debug, Clone, PartialEq, Eq)]
pub struct ConnectRequest {
    pub root: Vec<u16>,
    pub remote: Vec<u16>,
    pub user: Option<Vec<u16>>,
    pub password: Option<Vec<u16>>,
}

pub open spec fn marked_text(text: Option<&str>) -> Option<Seq<u16>> {
    match text {
        Some(text) => Some(text::utf16_encoded(text@).push(0)),
        None => None,
    }
}

fn marked_units(text: Option<&str>) -> (units: Option<Vec<u16>>)
    ensures
        codec::units_view(units) == marked_text(text),
{
    match text {
        Some(text) => {
            let mut units = encode_text(text);
            units.push(0);
            Some(units)
        },
        None => None,
    }
}

/// The request for a connection to the share of a path.
pub fn connect_request(
    path: &[u16],
    answer: &DriveAnswer,
    username: Option<&str>,
    password: Option<&str>,
) -> (result: Result<ConnectRequest, NetworkAuthError>)
    ensures
        match (result, normalized_root(path@, *answer)) {
            (Ok(request), Ok(root)) => {
                &&& request.root@ == root
                &&& request.remote@ == root.push(0)
                &&& codec::units_view(request.user) == marked_text(username)
                &&& codec::units_view(request.password) == marked_text(password)
            },
            (Err(error), Err(found)) => error == found,
            _ => false,
        },
{
    match normalize_share_root(path, answer) {
        Ok(root) => {
            let remote = wide_null(&root);
            Ok(
                ConnectRequest {
                    root,
                    remote,
                    user: marked_units(username),
                    password: marked_units(password),
                },
            )
        },
        Err(error) => Err(error),
    }
}

/// What follows when the system was asked for a connection.
#[derive(Debug, Clone, Copy, PartialEq, Eq, Structural)]
pub enum ConnectStep {
    Connected(NetworkResult),
    Failed(NetworkAuthError),
    StoreCredential,
}

/// After the system's answer, the credential is stored where it is to be remembered and there are
/// both a name and a password.
pub fn connect_network_share(
    code: u32,
    username: Option<&str>,
    password: Option<&str>,
    remember: bool,
) -> (step: ConnectStep)
    ensures
        step == if code != NO_ERROR {
            ConnectStep::Failed(auth_error(code))
        } else if remember && username is Some && password is Some {
            ConnectStep::StoreCredential
        } else {
            ConnectStep::Connected(NetworkResult { code })
        },
{
    if code != NO_ERROR {
        return ConnectStep::Failed(network_auth_error(code));
    }
    if remember && username.is_some() && password.is_some() {
        ConnectStep::StoreCredential
    } else {
        ConnectStep::Connected(NetworkResult { code })
    }
}

/// The longest secret that the system stores, in bytes.
pub const CRED_MAX_CREDENTIAL_BLOB_SIZE: usize = 2560;

/// What the system stores of a share.
#[derive(Debug, Clone, PartialEq, Eq)]
pub struct NetworkCredential {
    pub target: Vec<u16>,
    pub user: Vec<u16>,
    pub secret: Vec<u8>,
}

/// The first position from `from` on that is no backslash.
pub open spec fn after_backslashes(s: Seq<u16>, from: int) -> int
    decreases s.len() - from,
{
    if 0 <= from < s.len() && s[from] == BACKSLASH {
        after_backslashes(s, from + 1)
    } else {
        from
    }
}

/// The credential of a share, under the name of its root without the leading backslashes. A
/// password that is too long for the system is refused.
pub fn network_credential(root: &[u16], username: &str, password: &str) -> (result: Result<
    NetworkCredential,
    NetworkAuthError,
>)
    ensures
        match result {
            Ok(credential) => {
                &&& 2 * text::utf16_encoded(password@).len() <= CRED_MAX_CREDENTIAL_BLOB_SIZE
                &&& credential.target@ == root@.subrange(
                    after_backslashes(root@, 0),
                    root@.len() as int,
                ).push(0)
                &&& credential.user@ == text::utf16_encoded(username@).push(0)
                &&& credential.secret@ == bytes::unit_bytes(text::utf16_encoded(password@))
            },
            Err(error) => 2 * text::utf16_encoded(password@).len() > CRED_MAX_CREDENTIAL_BLOB_SIZE
                && error == auth_error(ERROR_INVALID_PASSWORD),
        },
{
    let mut start: usize = 0;
    let n: usize = root.len();
    while start < n && root[start] == BACKSLASH
        invariant
            start <= n,
            n == root@.len(),
            after_backslashes(root@, 0) == after_backslashes(root@, start as int),
        decreases n - start,
    {
        start += 1;
    }
    let mut target = units_copy(root, start, n);
    target.push(0);
    let mut user = encode_text(username);
    user.push(0);
    let mut units = encode_text(password);
    let mut secret: Vec<u8> = Vec::new();
    push_unit_bytes(&mut secret, &units);
    assert(secret@ =~= bytes::unit_bytes(units@));
    clear_units(&mut units);
    if secret.len() > CRED_MAX_CREDENTIAL_BLOB_SIZE {
        clear_bytes(&mut secret);
        return Err(network_auth_error(ERROR_INVALID_PASSWORD));
    }
    Ok(NetworkCredential { target, user, secret })
}

/// What a connection comes to once its credential was to be stored: the failure of storing it, or
/// the connection.
pub fn credential_outcome(stored: bool, code: u32) -> (result: Result<
    NetworkResult,
    NetworkAuthError,
>)
    ensures
        result == if stored {
            Ok::<NetworkResult, NetworkAuthError>(NetworkResult { code: NO_ERROR })
        } else {
            Err(auth_error(code))
        },
{
    if stored {
        Ok(NetworkResult { code: NO_ERROR })
    } else {
        Err(network_auth_error(code))
    }
}

/// Overwrites a secret.
pub fn clear_bytes(secret: &mut Vec<u8>)
    ensures
        final(secret)@ == Seq::new(old(secret)@.len(), |i: int| 0u8),
{
    let n: usize = secret.len();
    let mut i: usize = 0;
    while i < n
        invariant
            i <= n,
            n == secret@.len(),
            n == old(secret)@.len(),
            forall|k: int| 0 <= k < i ==> secret@[k] == 0,
        decreases n - i,
    {
        secret.set(i, 0);
        i += 1;
    }
    assert(secret@ =~= Seq::new(old(secret)@.len(), |i: int| 0u8));
}

fn clear_units(secret: &mut Vec<u16>)
    ensures
        final(secret)@ == Seq::new(old(secret)@.len(), |i: int| 0u16),
{
    let n: usize = secret.len();
    let mut i: usize = 0;
    while i < n
        invariant
            i <= n,
            n == secret@.len(),
            n == old(secret)@.len(),
            forall|k: int| 0 <= k < i ==> secret@[k] == 0,
        decreases n - i,
    {
        secret.set(i, 0);
        i += 1;
    }
    assert(secret@ =~= Seq::new(old(secret)@.len(), |i: int| 0u16));
}

/// Overwrites a secret, where there is one.
pub fn clear_secret(secret: &mut Option<Vec<u16>>)
    ensures
        match (*old(secret), *final(secret)) {
            (Some(before), Some(after)) => after@ == Seq::new(before@.len(), |i: int| 0u16),
            (None, None) => true,
            _ => false,
        },
{
    if let Some(mut units) = secret.take() {
        clear_units(&mut units);
        *secret = Some(units);
    }
}

/// What the system is handed to end a connection.
#[derive(Debug, Clone, PartialEq, Eq)]
pub struct DisconnectRequest {
    pub name: Vec<u16>,
    pub force: bool,
}

fn disconnect_request(path: &[u16], answer: &DriveAnswer, force: bool) -> (result: Result<
    DisconnectRequest,
    NetworkAuthError,
>)
    ensures
        match (result, normalized_root(path@, *answer)) {
            (Ok(request), Ok(root)) => request.name@ == root.push(0) && request.force == force,
            (Err(error), Err(found)) => error == found,
            _ => false,
        },
{
    match normalize_share_root(path, answer) {
        Ok(root) => Ok(DisconnectRequest { name: wide_null(&root), force }),
        Err(error) => Err(error),
    }
}

pub fn disconnect_network_share(path: &[u16], answer: &DriveAnswer) -> (result: Result<
    DisconnectRequest,
    NetworkAuthError,
>)
    ensures
        match (result, normalized_root(path@, *answer)) {
            (Ok(request), Ok(root)) => request.name@ == root.push(0) && !request.force,
            (Err(error), Err(found)) => error == found,
            _ => false,
        },
{
    disconnect_request(path, answer, false)
}

/// As [`disconnect_network_share`], also where files are open.
pub fn force_disconnect_network_share(path: &[u16], answer: &DriveAnswer) -> (result: Result<
    DisconnectRequest,
    NetworkAuthError,
>)
    ensures
        match (result, normalized_root(path@, *answer)) {
            (Ok(request), Ok(root)) => request.name@ == root.push(0) && request.force,
            (Err(error), Err(found)) => error == found,
            _ => false,
        },
{
    disconnect_request(path, answer, true)
}

/// What the end of a connection comes to.
pub fn disconnect_outcome(code: u32) -> (result: Result<NetworkResult, NetworkAuthError>)
    ensures
        result == if code == NO_ERROR {
            Ok::<NetworkResult, NetworkAuthError>(NetworkResult { code })
        } else {
            Err(auth_error(code))
        },
{
    if code == NO_ERROR {
        Ok(NetworkResult { code })
    } else {
        Err(network_auth_error(code))
    }
}

// ---- laws ----

proof fn lemma_after_seps(s: Seq<u16>, from: int)
    requires
        0 <= from <= s.len(),
    ensures
        from <= after_seps(s, from) <= s.len(),
        after_seps(s, from) < s.len() ==> !winpath::is_sep(s[after_seps(s, from)]),
    decreases s.len() - from,
{
    if from < s.len() && winpath::is_sep(s[from]) {
        lemma_after_seps(s, from + 1);
    }
}

proof fn lemma_part(s: Seq<u16>, from: int)
    requires
        0 <= from <= s.len(),
    ensures
        from <= winpath::piece_end(s, from, false) <= s.len(),
        forall|i: int|
            from <= i < winpath::piece_end(s, from, false) ==> !winpath::is_sep(#[trigger] s[i]),
        winpath::piece_end(s, from, false) < s.len() ==> winpath::is_sep(
            s[winpath::piece_end(s, from, false)],
        ),
    decreases s.len() - from,
{
    if from < s.len() && !winpath::is_sep(s[from]) {
        lemma_part(s, from + 1);
    }
}

proof fn lemma_part_ends(s: Seq<u16>, from: int, end: int)
    requires
        0 <= from <= end <= s.len(),
        forall|i: int| from <= i < end ==> !winpath::is_sep(#[trigger] s[i]),
        end < s.len() ==> winpath::is_sep(s[end]),
    ensures
        winpath::piece_end(s, from, false) == end,
    decreases end - from,
{
    if from < end {
        assert(!winpath::is_sep(s[from]));
        lemma_part_ends(s, from + 1, end);
    }
}

/// The root of a share is its own root.
pub proof fn law_share_root_is_its_own_root(path: Seq<u16>)
    requires
        share_of(path) is Ok,
    ensures
        share_of(share_of(path)->Ok_0) == share_of(path),
{
    let body = share_body(path)->Some_0;
    let server = after_seps(body, 0);
    let server_end = winpath::piece_end(body, server, false);
    let share = after_seps(body, server_end);
    let share_end = winpath::piece_end(body, share, false);
    lemma_after_seps(body, 0);
    lemma_part(body, server);
    lemma_after_seps(body, server_end);
    lemma_part(body, share);
    lemma_part_ends(body, server, server_end);
    assert(server < server_end) by {
        if server == server_end {
            assert(winpath::is_sep(body[server]));
        }
    }
    assert(share < share_end) by {
        if share == share_end {
            assert(winpath::is_sep(body[share]));
        }
    }
    let left = body.subrange(server, server_end);
    let right = body.subrange(share, share_end);
    let root = seq![BACKSLASH, BACKSLASH] + left + seq![BACKSLASH] + right;
    assert(share_of(path) == Ok::<Seq<u16>, Seq<char>>(root));
    let n = left.len() as int;
    assert forall|i: int| 2 <= i < 2 + n implies !winpath::is_sep(#[trigger] root[i]) by {
        assert(root[i] == body[server + i - 2]);
    }
    assert forall|i: int| 3 + n <= i < root.len() implies !winpath::is_sep(
        #[trigger] root[i],
    ) by {
        assert(root[i] == body[share + i - 3 - n]);
    }
    assert(root[2 + n] == BACKSLASH);
    if network::has_verbatim_start(root) {
        assert(n == 1) by {
            if n > 1 {
                assert(!winpath::is_sep(root[3]));
            }
        }
        if root.len() >= 8 {
            assert(!winpath::is_sep(root[7]));
        }
    }
    let inner = root.subrange(2, root.len() as int);
    assert(share_body(root) == Some(inner));
    assert forall|i: int| 0 <= i < inner.len() implies #[trigger] inner[i] == root[i + 2] by {}
    assert(!winpath::is_sep(inner[0])) by {
        assert(!winpath::is_sep(root[2]));
    }
    assert(after_seps(inner, 0) == 0);
    assert forall|i: int| 0 <= i < n implies !winpath::is_sep(#[trigger] inner[i]) by {
        assert(!winpath::is_sep(root[i + 2]));
    }
    lemma_part_ends(inner, 0, n);
    assert(!winpath::is_sep(inner[n + 1])) by {
        assert(!winpath::is_sep(root[3 + n]));
    }
    assert(after_seps(inner, n + 1) == n + 1);
    assert(after_seps(inner, n) == n + 1);
    assert forall|i: int| n + 1 <= i < inner.len() implies !winpath::is_sep(
        #[trigger] inner[i],
    ) by {
        assert(!winpath::is_sep(root[i + 2]));
    }
    lemma_part_ends(inner, n + 1, inner.len() as int);
    assert(inner.subrange(0, n) =~= left);
    assert(inner.subrange(n + 1, inner.len() as int) =~= right);
}

/// The long form of a network path leads into the same share as its short form.
pub proof fn law_long_form_has_the_same_root(body: Seq<u16>)
    requires
        share_body(seq![BACKSLASH, BACKSLASH] + body) == Some(body),
    ensures
        share_of(
            seq![BACKSLASH, BACKSLASH, QUESTION, BACKSLASH, 0x55u16, 0x4eu16, 0x43u16, BACKSLASH]
                + body,
        ) == share_of(seq![BACKSLASH, BACKSLASH] + body),
{
    let long = seq![
        BACKSLASH,
        BACKSLASH,
        QUESTION,
        BACKSLASH,
        0x55u16,
        0x4eu16,
        0x43u16,
        BACKSLASH,
    ] + body;
    assert(long.subrange(8, long.len() as int) =~= body);
}

// ---- laws of the shares ----

/// A failed connection is told apart by its number, which it keeps: a refusal, a wrong name or
/// password, other credentials in use, a place that is not there, or a network that is not.
pub proof fn law_connection_errors_are_told_apart(code: u32, error: NetworkAuthError)
    requires
        call_ensures(network_auth_error, (code,), error),
    ensures
        error.code == code,
        error.kind == NetworkAuthErrorKind::AccessDenied <==> code == 5,
        error.kind == NetworkAuthErrorKind::LogonFailure <==> code == 1326 || code == 2202 || code
            == 86,
        error.kind == NetworkAuthErrorKind::CredentialConflict <==> code == 1219,
        error.kind == NetworkAuthErrorKind::BadPath <==> code == 67 || code == 53 || code == 1203
            || code == 123 || code == 1200,
        error.kind == NetworkAuthErrorKind::Unavailable <==> code == 1231 || code == 1222 || code
            == 1201 || code == 1225 || code == 1232 || code == 1233 || code == 2250,
{
}

/// A path on a mapped drive stands for the same path on the share to which the drive leads; a path
/// without a drive stands for itself.
pub proof fn law_mapped_drives_lead_to_their_shares(
    letter: u16,
    below: Seq<u16>,
    remote: Vec<u16>,
    path: &[u16],
    found: Result<Vec<u16>, IoError>,
)
    requires
        0x41 <= letter <= 0x5a || 0x61 <= letter <= 0x7a,
        below.len() > 0 && below[0] != 0x5c && below[0] != 0x2f,
        path@ == seq![letter, 0x3au16, 0x5cu16] + below,
        !remote@.contains(0),
        remote@.len() > 0 && remote@.last() != 0x5c,
        call_ensures(network_drive_to_unc, (path, &DriveAnswer::Remote(remote)), found),
    ensures
        found matches Ok(unc) && unc@ == remote@ + seq![0x5cu16] + below,
{
    let s = path@;
    assert(s[0] == letter && s[1] == 0x3a && s[2] == 0x5c && s[3] == below[0]);
    assert(after_seps(s, 3) == 3);
    assert(after_seps(s, 2) == 3);
    assert(s.subrange(3, s.len() as int) =~= below);
    wide::lemma_no_nul(remote@);
}

/// A path without a drive stands for itself, and only a failed question gives no answer.
pub proof fn law_other_paths_stay(path: &[u16], answer: DriveAnswer, found: Result<Vec<u16>, IoError>)
    requires
        call_ensures(network_drive_to_unc, (path, &answer), found),
    ensures
        path@.len() < 2 || path@[1] != 0x3a ==> (found matches Ok(same) && same@ == path@),
        found is Err ==> answer is Failed,
{
}

/// Every path into a share has the root of that share: the server and the share, whatever follows.
pub proof fn law_paths_have_the_root_of_their_share(
    server: Seq<u16>,
    share: Seq<u16>,
    below: Seq<u16>,
    path: &[u16],
    result: Result<Vec<u16>, IoError>,
)
    requires
        server.len() > 0 && server[0] != 0x3f,
        share.len() > 0,
        forall|i: int| 0 <= i < server.len() ==> #[trigger] server[i] != 0x5c && server[i] != 0x2f,
        forall|i: int| 0 <= i < share.len() ==> #[trigger] share[i] != 0x5c && share[i] != 0x2f,
        below.len() > 0 ==> below[0] == 0x5c,
        path@ == seq![0x5cu16, 0x5cu16] + server + seq![0x5cu16] + share + below,
        call_ensures(share_root, (path,), result),
    ensures
        result matches Ok(root) && root@ == seq![0x5cu16, 0x5cu16] + server + seq![0x5cu16] + share,
{
    let s = path@;
    let n = server.len() as int;
    let m = share.len() as int;
    let body = server + seq![0x5cu16] + share + below;
    assert(s[0] == 0x5c && s[1] == 0x5c && s[2] == server[0]);
    assert(s.subrange(2, s.len() as int) =~= body);
    assert(share_body(s) == Some(body));
    assert(body[0] == server[0]);
    assert(after_seps(body, 0) == 0);
    assert forall|i: int| 0 <= i < n implies !winpath::is_sep(#[trigger] body[i]) by {
        assert(body[i] == server[i]);
    }
    assert(body[n] == 0x5c);
    lemma_part_ends(body, 0, n);
    assert(body[n + 1] == share[0]);
    assert(after_seps(body, n + 1) == n + 1);
    assert(after_seps(body, n) == n + 1);
    assert forall|i: int| n + 1 <= i < n + 1 + m implies !winpath::is_sep(#[trigger] body[i]) by {
        assert(body[i] == share[i - n - 1]);
    }
    if below.len() > 0 {
        assert(body[n + 1 + m] == below[0]);
    }
    lemma_part_ends(body, n + 1, n + 1 + m);
    assert(body.subrange(0, n) =~= server);
    assert(body.subrange(n + 1, n + 1 + m) =~= share);
}

/// The system is asked to connect to the root of the share, under the name and with the password
/// that were given; both ways of disconnecting name the same root, and only one of them insists.
pub proof fn law_connections_name_the_root(
    path: &[u16],
    answer: DriveAnswer,
    username: Option<&str>,
    password: Option<&str>,
    connect: Result<ConnectRequest, NetworkAuthError>,
    root: Result<Vec<u16>, NetworkAuthError>,
    gentle: Result<DisconnectRequest, NetworkAuthError>,
    forced: Result<DisconnectRequest, NetworkAuthError>,
)
    requires
        call_ensures(connect_request, (path, &answer, username, password), connect),
        call_ensures(normalize_share_root, (path, &answer), root),
        call_ensures(disconnect_network_share, (path, &answer), gentle),
        call_ensures(force_disconnect_network_share, (path, &answer), forced),
    ensures
        match root {
            Err(error) => connect == Err::<ConnectRequest, _>(error) && gentle == Err::<
                DisconnectRequest,
                _,
            >(error) && forced == Err::<DisconnectRequest, _>(error),
            Ok(root) => {
                &&& connect matches Ok(request) && {
                    &&& request.root@ == root@
                    &&& request.remote@ == root@.push(0)
                    &&& match (username, request.user) {
                        (Some(text), Some(units)) => units@ == text::utf16_encoded(text@).push(0),
                        (None, None) => true,
                        _ => false,
                    }
                    &&& match (password, request.password) {
                        (Some(text), Some(units)) => units@ == text::utf16_encoded(text@).push(0),
                        (None, None) => true,
                        _ => false,
                    }
                }
                &&& gentle matches Ok(request) && request.name@ == root@.push(0) && !request.force
                &&& forced matches Ok(request) && request.name@ == root@.push(0) && request.force
            },
        },
{
}

/// A path into a share, and the same place on a drive mapped to that share, have the same root.
pub proof fn law_drives_share_the_root(
    path: &[u16],
    answer: DriveAnswer,
    found: Vec<u16>,
    unc: &[u16],
    direct: Result<Vec<u16>, IoError>,
    root: Result<Vec<u16>, NetworkAuthError>,
)
    requires
        call_ensures(network_drive_to_unc, (path, &answer), Ok(found)),
        unc@ == found@,
        call_ensures(share_root, (unc,), direct),
        call_ensures(normalize_share_root, (path, &answer), root),
    ensures
        match direct {
            Ok(direct) => root matches Ok(root) && root@ == direct@,
            Err(_) => root matches Err(error) && error.code == 53,
        },
{
}

/// A connection stands exactly where the system reported no error, and its credentials are stored
/// only where they are to be remembered and complete; that they could not be stored is an error.
pub proof fn law_credentials_are_kept_on_request(
    code: u32,
    username: Option<&str>,
    password: Option<&str>,
    remember: bool,
    step: ConnectStep,
    stored: bool,
    outcome: Result<NetworkResult, NetworkAuthError>,
    ended: Result<NetworkResult, NetworkAuthError>,
)
    requires
        call_ensures(connect_network_share, (code, username, password, remember), step),
        call_ensures(credential_outcome, (stored, code), outcome),
        call_ensures(disconnect_outcome, (code,), ended),
    ensures
        step is Failed <==> code != 0,
        step matches ConnectStep::Failed(error) ==> error.code == code,
        step is StoreCredential <==> code == 0 && remember && username is Some && password is Some,
        step matches ConnectStep::Connected(result) ==> result.code == 0,
        outcome is Ok <==> stored,
        outcome matches Err(error) ==> error.code == code,
        ended is Ok <==> code == 0,
        ended matches Err(error) ==> error.code == code,
{
}

/// A credential is stored under the share without its leading backslashes, with the name and the
/// password of the user; only a password that is too long is refused.
pub proof fn law_credentials_name_their_share(
    rest: Seq<u16>,
    root: &[u16],
    username: &str,
    password: &str,
    result: Result<NetworkCredential, NetworkAuthError>,
)
    requires
        rest.len() > 0 && rest[0] != 0x5c,
        root@ == seq![0x5cu16, 0x5cu16] + rest,
        call_ensures(network_credential, (root, username, password), result),
    ensures
        result is Err <==> 2 * text::utf16_encoded(password@).len() > 2560,
        result matches Err(error) ==> error.code == 86,
        result matches Ok(credential) ==> credential.target@ == rest.push(0) && credential.user@
            == text::utf16_encoded(username@).push(0) && bytes::units_in(credential.secret@)
            == text::utf16_encoded(password@),
{
    assert(root@[0] == 0x5c && root@[1] == 0x5c && root@[2] == rest[0]);
    assert(after_backslashes(root@, 2) == 2);
    assert(after_backslashes(root@, 1) == 2);
    assert(after_backslashes(root@, 0) == 2);
    assert(root@.subrange(2, root@.len() as int) =~= rest);
    bytes::law_units_round_trip(text::utf16_encoded(password@));
}

/// Nothing of a secret is left once it was cleared.
pub proof fn law_cleared_secrets_are_gone(secret: &mut Vec<u8>, other: &mut Option<Vec<u16>>)
    requires
        call_ensures(clear_bytes, (secret,), ()),
        call_ensures(clear_secret, (other,), ()),
    ensures
        forall|i: int| 0 <= i < final(secret)@.len() ==> #[trigger] final(secret)@[i] == 0,
        *final(other) matches Some(units) ==> forall|i: int|
            0 <= i < units@.len() ==> #[trigger] units@[i] == 0,
{
}

/// The room for a path is doubled where it was too small, an error is passed on, and anything else is an
/// answer; a drive is asked for by its letter.
pub proof fn law_more_room_is_given(
    result: u32,
    capacity: u32,
    step: ConnectionStep,
    path: &[u16],
    name: Option<Vec<u16>>,
)
    requires
        call_ensures(connection_step, (result, capacity), step),
        call_ensures(drive_name, (path,), name),
    ensures
        step is Enlarge <==> result == 234,
        step matches ConnectionStep::Enlarge(room) ==> room > capacity || capacity == u32::MAX,
        step matches ConnectionStep::Enlarge(room) ==> 256 <= capacity && 2 * capacity <= u32::MAX
            ==> room == 2 * capacity,
        step is Answered <==> result == 0,
        step is Failed <==> result != 234 && result != 0,
        step matches ConnectionStep::Failed(code) ==> code == result,
        name is Some <==> path@.len() >= 2 && path@[1] == 0x3a && (0x41 <= path@[0] <= 0x5a || 0x61
            <= path@[0] <= 0x7a),
        name matches Some(units) ==> units@ == seq![path@[0], 0x3au16, 0u16],
{
}

} // verus!
