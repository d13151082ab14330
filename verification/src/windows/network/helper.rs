//! What the file manager hands its helper process, and what it hears back.
use vstd::prelude::*;

use crate::bytes;
use crate::bytes::push_u32;
use crate::errors;
use crate::errors::{ErrorKind, IoError};
use crate::text;
use crate::text::{decode_strict, encode_text, string_from_chars};
use crate::windows::network as network_rules;
use crate::windows::network::codec;
use crate::windows::network::codec::{
    push_flag, read_byte, read_optional_units, read_units_at, write_optional_units, write_units,
    Fault, MAX_HELPER_UTF16_UNITS,
};
use crate::windows::network::entry::FileVisibility;
use crate::windows::network::{clear_secret, network_auth_error, NetworkAuthError, NetworkResult};

verus! {

/// A value that takes up the rest of a buffer.
pub open spec fn alone<T>(read: Result<(T, int), Fault>, b: Seq<u8>, message: Seq<char>) -> Result<
    T,
    Fault,
> {
    match read {
        Err(fault) => Err(fault),
        Ok((value, at)) => if at == b.len() {
            Ok(value)
        } else {
            Err(codec::invalid(message))
        },
    }
}

// ---- a path ----

/// The path alone, as the bytes hold it.
pub open spec fn path_in(b: Seq<u8>) -> Result<Seq<u16>, Fault> {
    alone(codec::units_at(b, 0), b, "trailing path data"@)
}

pub fn write_utf16_path(path: &[u16]) -> (result: Result<Vec<u8>, IoError>)
    ensures
        match result {
            Ok(b) => codec::sendable(path@) && b@ == codec::units_out(path@),
            Err(error) => !codec::sendable(path@) && errors::fails_with(
                error,
                ErrorKind::InvalidInput,
                "path too long"@,
            ),
        },
{
    if path.len() > MAX_HELPER_UTF16_UNITS {
        return Err(IoError::new(ErrorKind::InvalidInput, "path too long"));
    }
    let mut b: Vec<u8> = Vec::new();
    if let Err(error) = write_units(&mut b, path) {
        return Err(error);
    }
    assert(b@ =~= codec::units_out(path@));
    Ok(b)
}

pub fn read_utf16_path(b: &[u8]) -> (result: Result<Vec<u16>, IoError>)
    ensures
        match (result, path_in(b@)) {
            (Ok(path), Ok(found)) => path@ == found,
            (Err(error), Err(fault)) => codec::is_fault(error, fault),
            _ => false,
        },
{
    match read_units_at(b, 0) {
        Err(error) => Err(error),
        Ok((path, at)) => if at == b.len() {
            Ok(path)
        } else {
            Err(IoError::new(ErrorKind::InvalidData, "trailing path data"))
        },
    }
}

/// A path is read as it was written.
pub proof fn law_path_round_trip(path: Seq<u16>)
    requires
        codec::sendable(path),
    ensures
        path_in(codec::units_out(path)) == Ok::<Seq<u16>, Fault>(path),
{
    codec::lemma_whole(codec::units_out(path));
    codec::lemma_units_at(codec::units_out(path), 0, path);
}

// ---- a request to connect ----

/// What a request to connect says.
pub struct AuthData {
    pub path: Seq<u16>,
    pub username: Option<Seq<char>>,
    pub password: Option<Seq<char>>,
    pub remember: bool,
}

pub open spec fn encoded(text: Option<Seq<char>>) -> Option<Seq<u16>> {
    match text {
        Some(text) => Some(text::utf16_encoded(text)),
        None => None,
    }
}

/// The text that units stand for, where they are valid.
pub open spec fn strict(units: Option<Seq<u16>>, message: Seq<char>) -> Result<
    Option<Seq<char>>,
    Fault,
> {
    match units {
        None => Ok(None),
        Some(units) => if text::valid_utf16(units) {
            Ok(Some(text::utf16_lossy(units)))
        } else {
            Err(codec::invalid(message))
        },
    }
}

pub open spec fn optional_text_at(b: Seq<u8>, at: int, message: Seq<char>) -> Result<
    (Option<Seq<char>>, int),
    Fault,
> {
    match codec::optional_units_at(b, at) {
        Err(fault) => Err(fault),
        Ok((units, at)) => match strict(units, message) {
            Err(fault) => Err(fault),
            Ok(text) => Ok((text, at)),
        },
    }
}

pub open spec fn auth_at(b: Seq<u8>, at: int) -> Result<(AuthData, int), Fault> {
    match codec::units_at(b, at) {
        Err(fault) => Err(fault),
        Ok((path, at)) => match optional_text_at(b, at, "invalid username"@) {
            Err(fault) => Err(fault),
            Ok((username, at)) => match optional_text_at(b, at, "invalid password"@) {
                Err(fault) => Err(fault),
                Ok((password, at)) => match codec::byte_at(b, at) {
                    Err(fault) => Err(fault),
                    Ok((remember, at)) => Ok(
                        (AuthData { path, username, password, remember: remember != 0 }, at),
                    ),
                },
            },
        },
    }
}

pub open spec fn auth_in(b: Seq<u8>) -> Result<AuthData, Fault> {
    alone(auth_at(b, 0), b, "trailing authentication input data"@)
}

pub open spec fn auth_out(input: AuthData) -> Seq<u8> {
    codec::units_out(input.path) + codec::optional_units_out(encoded(input.username))
        + codec::optional_units_out(encoded(input.password)) + seq![
        codec::flag_byte(input.remember),
    ]
}

pub open spec fn auth_sendable(input: AuthData) -> bool {
    &&& codec::sendable(input.path)
    &&& codec::optional_sendable(encoded(input.username))
    &&& codec::optional_sendable(encoded(input.password))
}

pub open spec fn str_view(text: Option<&str>) -> Option<Seq<char>> {
    match text {
        Some(text) => Some(text@),
        None => None,
    }
}

pub open spec fn string_view(text: Option<String>) -> Option<Seq<char>> {
    match text {
        Some(text) => Some(text@),
        None => None,
    }
}

fn write_optional_text(b: &mut Vec<u8>, value: Option<&str>) -> (result: Result<(), IoError>)
    ensures
        match result {
            Ok(_) => codec::optional_sendable(encoded(str_view(value))) && final(b)@ == old(b)@
                + codec::optional_units_out(encoded(str_view(value))),
            Err(error) => !codec::optional_sendable(encoded(str_view(value))) && codec::is_fault(
                error,
                codec::too_long(),
            ),
        },
{
    match value {
        Some(value) => {
            let units = encode_text(value);
            let result = write_optional_units(b, Some(&units));
            let mut secret = Some(units);
            clear_secret(&mut secret);
            result
        },
        None => write_optional_units(b, None),
    }
}

/// The request, before it is protected.
pub fn write_auth_input(
    path: &[u16],
    username: Option<&str>,
    password: Option<&str>,
    remember: bool,
) -> (result: Result<Vec<u8>, IoError>)
    ensures
        ({
            let input = AuthData {
                path: path@,
                username: str_view(username),
                password: str_view(password),
                remember,
            };
            match result {
                Ok(b) => auth_sendable(input) && b@ == auth_out(input),
                Err(error) => !auth_sendable(input) && codec::is_fault(error, codec::too_long()),
            }
        }),
{
    let mut b: Vec<u8> = Vec::new();
    if let Err(error) = write_units(&mut b, path) {
        return Err(error);
    }
    if let Err(error) = write_optional_text(&mut b, username) {
        return Err(error);
    }
    if let Err(error) = write_optional_text(&mut b, password) {
        return Err(error);
    }
    push_flag(&mut b, remember);
    assert(b@ =~= auth_out(
        AuthData {
            path: path@,
            username: str_view(username),
            password: str_view(password),
            remember,
        },
    ));
    Ok(b)
}

#[derive(Debug, Clone, PartialEq, Eq)]
pub struct AuthInput {
    pub path: Vec<u16>,
    pub username: Option<String>,
    pub password: Option<String>,
    pub remember: bool,
}

impl AuthInput {
    pub open spec fn data(self) -> AuthData {
        AuthData {
            path: self.path@,
            username: string_view(self.username),
            password: string_view(self.password),
            remember: self.remember,
        }
    }
}

fn read_optional_text(b: &[u8], at: usize, message: &str) -> (result: Result<
    (Option<String>, usize),
    IoError,
>)
    requires
        at <= b@.len(),
    ensures
        match (result, optional_text_at(b@, at as int, message@)) {
            (Ok(read), Ok(found)) => string_view(read.0) == found.0 && read.1 == found.1 && read.1
                <= b@.len(),
            (Err(error), Err(fault)) => codec::is_fault(error, fault),
            _ => false,
        },
{
    let (units, at) = match read_optional_units(b, at) {
        Ok(read) => read,
        Err(error) => {
            return Err(error);
        },
    };
    match units {
        None => Ok((None, at)),
        Some(units) => {
            let decoded = decode_strict(&units);
            let mut secret = Some(units);
            clear_secret(&mut secret);
            match decoded {
                Some(chars) => Ok((Some(string_from_chars(&chars)), at)),
                None => Err(IoError::new(ErrorKind::InvalidData, message)),
            }
        },
    }
}

/// The request, once its protection is removed.
pub fn read_auth_input(b: &[u8]) -> (result: Result<AuthInput, IoError>)
    ensures
        match (result, auth_in(b@)) {
            (Ok(input), Ok(found)) => input.data() == found,
            (Err(error), Err(fault)) => codec::is_fault(error, fault),
            _ => false,
        },
{
    let (path, at) = match read_units_at(b, 0) {
        Ok(read) => read,
        Err(error) => {
            return Err(error);
        },
    };
    let (username, at) = match read_optional_text(b, at, "invalid username") {
        Ok(read) => read,
        Err(error) => {
            return Err(error);
        },
    };
    let (password, at) = match read_optional_text(b, at, "invalid password") {
        Ok(read) => read,
        Err(error) => {
            return Err(error);
        },
    };
    let (remember, at) = match read_byte(b, at) {
        Ok(read) => read,
        Err(error) => {
            return Err(error);
        },
    };
    if at != b.len() {
        return Err(IoError::new(ErrorKind::InvalidData, "trailing authentication input data"));
    }
    Ok(AuthInput { path, username, password, remember: remember != 0 })
}

proof fn lemma_optional_text_at(b: Seq<u8>, at: int, value: Option<Seq<char>>, message: Seq<char>)
    requires
        codec::holds(b, at, codec::optional_units_out(encoded(value))),
        codec::optional_sendable(encoded(value)),
    ensures
        optional_text_at(b, at, message) == Ok::<(Option<Seq<char>>, int), Fault>(
            (value, at + codec::optional_units_out(encoded(value)).len()),
        ),
{
    codec::lemma_optional_units_at(b, at, encoded(value));
    if let Some(value) = value {
        text::law_utf16_round_trip(value);
    }
}

/// A request to connect is read as it was written.
pub proof fn law_auth_input_round_trip(input: AuthData)
    requires
        auth_sendable(input),
    ensures
        auth_in(auth_out(input)) == Ok::<AuthData, Fault>(input),
{
    let b = auth_out(input);
    let path = codec::units_out(input.path);
    let username = codec::optional_units_out(encoded(input.username));
    let password = codec::optional_units_out(encoded(input.password));
    let remember = seq![codec::flag_byte(input.remember)];
    codec::lemma_whole(b);
    codec::lemma_split(b, 0, path + username + password, remember);
    codec::lemma_split(b, 0, path + username, password);
    codec::lemma_split(b, 0, path, username);
    codec::lemma_units_at(b, 0, input.path);
    let p = path.len() as int;
    lemma_optional_text_at(b, p, input.username, "invalid username"@);
    lemma_optional_text_at(b, p + username.len(), input.password, "invalid password"@);
    codec::lemma_byte_at(
        b,
        p + username.len() + password.len(),
        codec::flag_byte(input.remember),
    );
}

// ---- what a connection came to ----

pub open spec fn auth_result_out(result: Result<NetworkResult, NetworkAuthError>) -> Seq<u8> {
    match result {
        Ok(result) => seq![1u8] + bytes::bytes32(result.code),
        Err(error) => seq![0u8] + bytes::bytes32(error.code),
    }
}

/// What the bytes say of a connection.
pub open spec fn auth_result_in(b: Seq<u8>) -> Result<
    Result<NetworkResult, NetworkAuthError>,
    Fault,
> {
    if b.len() != 5 {
        Err(codec::invalid("invalid authentication result"@))
    } else if b[0] == 0 {
        Ok(Err(network_rules::auth_error(bytes::le32(b, 1))))
    } else if b[0] == 1 {
        Ok(Ok(NetworkResult { code: bytes::le32(b, 1) }))
    } else {
        Err(codec::invalid("invalid authentication result status"@))
    }
}

pub fn write_auth_result(result: Result<NetworkResult, NetworkAuthError>) -> (b: Vec<u8>)
    ensures
        b@ == auth_result_out(result),
{
    let mut b: Vec<u8> = Vec::new();
    match result {
        Ok(result) => {
            b.push(1);
            push_u32(&mut b, result.code);
        },
        Err(error) => {
            b.push(0);
            push_u32(&mut b, error.code);
        },
    }
    assert(b@ =~= auth_result_out(result));
    b
}

pub fn read_auth_result(b: &[u8]) -> (result: Result<
    Result<NetworkResult, NetworkAuthError>,
    IoError,
>)
    ensures
        match (result, auth_result_in(b@)) {
            (Ok(read), Ok(found)) => read == found,
            (Err(error), Err(fault)) => codec::is_fault(error, fault),
            _ => false,
        },
{
    if b.len() != 5 {
        return Err(IoError::new(ErrorKind::InvalidData, "invalid authentication result"));
    }
    let code: u32 = bytes::read_u32(b, 1);
    if b[0] == 0 {
        Ok(Err(network_auth_error(code)))
    } else if b[0] == 1 {
        Ok(Ok(NetworkResult { code }))
    } else {
        Err(IoError::new(ErrorKind::InvalidData, "invalid authentication result status"))
    }
}

/// What a connection came to is read as it was written, where a failure has the kind of its
/// number.
pub proof fn law_auth_result_round_trip(result: Result<NetworkResult, NetworkAuthError>)
    requires
        result matches Err(error) ==> error == network_rules::auth_error(error.code),
    ensures
        auth_result_in(auth_result_out(result)) == Ok::<
            Result<NetworkResult, NetworkAuthError>,
            Fault,
        >(result),
{
    let b = auth_result_out(result);
    let (mark, code) = match result {
        Ok(result) => (1u8, result.code),
        Err(error) => (0u8, error.code),
    };
    assert(b =~= seq![mark] + bytes::bytes32(code));
    assert(bytes::bytes32(code).len() == 4);
    codec::lemma_whole(b);
    codec::lemma_split(b, 0, seq![mark], bytes::bytes32(code));
    codec::lemma_u32_at(b, 1, code);
}

// ---- a request for the entries of a folder ----

pub open spec fn directory_input_out(path: Seq<u16>, visibility: FileVisibility) -> Seq<u8> {
    codec::units_out(path) + seq![codec::flag_byte(visibility.show_hidden)] + seq![
        codec::flag_byte(visibility.show_system),
    ]
}

pub open spec fn directory_input_at(b: Seq<u8>, at: int) -> Result<
    ((Seq<u16>, FileVisibility), int),
    Fault,
> {
    match codec::units_at(b, at) {
        Err(fault) => Err(fault),
        Ok((path, at)) => match codec::byte_at(b, at) {
            Err(fault) => Err(fault),
            Ok((hidden, at)) => match codec::byte_at(b, at) {
                Err(fault) => Err(fault),
                Ok((system, at)) => Ok(
                    (
                        (
                            path,
                            FileVisibility { show_hidden: hidden != 0, show_system: system != 0 },
                        ),
                        at,
                    ),
                ),
            },
        },
    }
}

pub open spec fn directory_input_in(b: Seq<u8>) -> Result<(Seq<u16>, FileVisibility), Fault> {
    alone(directory_input_at(b, 0), b, "trailing directory input data"@)
}

pub fn write_directory_input(path: &[u16], visibility: FileVisibility) -> (result: Result<
    Vec<u8>,
    IoError,
>)
    ensures
        match result {
            Ok(b) => codec::sendable(path@) && b@ == directory_input_out(path@, visibility),
            Err(error) => !codec::sendable(path@) && errors::fails_with(
                error,
                ErrorKind::InvalidInput,
                "path too long"@,
            ),
        },
{
    let mut b = match write_utf16_path(path) {
        Ok(b) => b,
        Err(error) => {
            return Err(error);
        },
    };
    push_flag(&mut b, visibility.show_hidden);
    push_flag(&mut b, visibility.show_system);
    Ok(b)
}

pub fn read_directory_input(b: &[u8]) -> (result: Result<(Vec<u16>, FileVisibility), IoError>)
    ensures
        match (result, directory_input_in(b@)) {
            (Ok(read), Ok(found)) => read.0@ == found.0 && read.1 == found.1,
            (Err(error), Err(fault)) => codec::is_fault(error, fault),
            _ => false,
        },
{
    let (path, at) = match read_units_at(b, 0) {
        Ok(read) => read,
        Err(error) => {
            return Err(error);
        },
    };
    let (hidden, at) = match read_byte(b, at) {
        Ok(read) => read,
        Err(error) => {
            return Err(error);
        },
    };
    let (system, at) = match read_byte(b, at) {
        Ok(read) => read,
        Err(error) => {
            return Err(error);
        },
    };
    if at != b.len() {
        return Err(IoError::new(ErrorKind::InvalidData, "trailing directory input data"));
    }
    Ok((path, FileVisibility { show_hidden: hidden != 0, show_system: system != 0 }))
}

/// A request for the entries of a folder is read as it was written.
pub proof fn law_directory_input_round_trip(path: Seq<u16>, visibility: FileVisibility)
    requires
        codec::sendable(path),
    ensures
        directory_input_in(directory_input_out(path, visibility)) == Ok::<
            (Seq<u16>, FileVisibility),
            Fault,
        >((path, visibility)),
{
    let b = directory_input_out(path, visibility);
    let text = codec::units_out(path);
    let hidden = seq![codec::flag_byte(visibility.show_hidden)];
    let system = seq![codec::flag_byte(visibility.show_system)];
    codec::lemma_whole(b);
    codec::lemma_split(b, 0, text + hidden, system);
    codec::lemma_split(b, 0, text, hidden);
    codec::lemma_units_at(b, 0, path);
    codec::lemma_byte_at(b, text.len() as int, codec::flag_byte(visibility.show_hidden));
    codec::lemma_byte_at(b, text.len() + 1int, codec::flag_byte(visibility.show_system));
}

// ---- laws of the requests ----

/// A path arrives as it was sent.
pub proof fn law_a_sent_path_arrives(
    path: &[u16],
    written: Vec<u8>,
    received: &[u8],
    read: Result<Vec<u16>, IoError>,
)
    requires
        call_ensures(write_utf16_path, (path,), Ok(written)),
        received@ == written@,
        call_ensures(read_utf16_path, (received,), read),
    ensures
        read matches Ok(found) && found@ == path@,
{
    law_path_round_trip(path@);
}

/// A request to connect arrives as it was made: the share, the name and the password of the user,
/// and whether they are to be remembered.
pub proof fn law_a_sent_connection_request_arrives(
    path: &[u16],
    username: Option<&str>,
    password: Option<&str>,
    remember: bool,
    written: Vec<u8>,
    received: &[u8],
    read: Result<AuthInput, IoError>,
)
    requires
        call_ensures(write_auth_input, (path, username, password, remember), Ok(written)),
        received@ == written@,
        call_ensures(read_auth_input, (received,), read),
    ensures
        read matches Ok(input) && {
            &&& input.path@ == path@
            &&& match (username, input.username) {
                (Some(a), Some(b)) => a@ == b@,
                (None, None) => true,
                _ => false,
            }
            &&& match (password, input.password) {
                (Some(a), Some(b)) => a@ == b@,
                (None, None) => true,
                _ => false,
            }
            &&& input.remember == remember
        },
{
    let input = AuthData {
        path: path@,
        username: str_view(username),
        password: str_view(password),
        remember,
    };
    law_auth_input_round_trip(input);
    assert(read->Ok_0.data() == input);
    assert(read->Ok_0.data().path == read->Ok_0.path@);
}

/// What a connection came to arrives as it was: a success as a success and a failure as a failure,
/// each under its number.
pub proof fn law_a_connections_end_arrives(
    result: Result<NetworkResult, NetworkAuthError>,
    written: Vec<u8>,
    received: &[u8],
    read: Result<Result<NetworkResult, NetworkAuthError>, IoError>,
)
    requires
        call_ensures(write_auth_result, (result,), written),
        received@ == written@,
        call_ensures(read_auth_result, (received,), read),
    ensures
        read matches Ok(found) && match (result, found) {
            (Ok(a), Ok(b)) => a.code == b.code,
            (Err(a), Err(b)) => a.code == b.code,
            _ => false,
        },
{
    let known = match result {
        Ok(result) => Ok::<NetworkResult, NetworkAuthError>(result),
        Err(error) => Err(network_rules::auth_error(error.code)),
    };
    assert(auth_result_out(known) == auth_result_out(result));
    law_auth_result_round_trip(known);
}

/// A request for a folder arrives as it was made: the folder, and what is to be shown of it.
pub proof fn law_a_sent_folder_request_arrives(
    path: &[u16],
    visibility: FileVisibility,
    written: Vec<u8>,
    received: &[u8],
    read: Result<(Vec<u16>, FileVisibility), IoError>,
)
    requires
        call_ensures(write_directory_input, (path, visibility), Ok(written)),
        received@ == written@,
        call_ensures(read_directory_input, (received,), read),
    ensures
        read matches Ok((found, shown)) && found@ == path@ && shown.show_hidden
            == visibility.show_hidden && shown.show_system == visibility.show_system,
{
    law_directory_input_round_trip(path@, visibility);
}

} // verus!
