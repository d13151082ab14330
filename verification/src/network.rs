//! Network locations, UNC paths and the discovery of network devices.
use std::sync::atomic::{AtomicBool, Ordering};
use std::sync::Arc;
use vstd::prelude::*;

use crate::errors::{ErrorKind, IoError};
use crate::text;
use crate::text::{
    decode_strict, lower_chars, string_from_chars, trim_chars, str_chars,
};
use crate::wide;
use crate::wide::{
    lower_units, units_copy, BACKSLASH, DOT, QUESTION,
};
use crate::winpath;
use crate::winpath::{path_eq, unit_is_sep, units_copy_all};

verus! {

// ---- UNC paths ----

/// The unit is the given capital or its small letter.
pub open spec fn is_either_case(unit: u16, capital: u16) -> bool {
    unit == capital || unit == capital + 0x20
}

pub open spec fn has_verbatim_start(s: Seq<u16>) -> bool {
    s.len() >= 4 && s[0] == BACKSLASH && s[1] == BACKSLASH && s[2] == QUESTION && s[3] == BACKSLASH
}

/// A path below a network server: `\\server...`, or `\\?\UNC\...` in either case.
pub open spec fn is_unc(s: Seq<u16>) -> bool {
    if has_verbatim_start(s) {
        &&& s.len() >= 8
        &&& is_either_case(s[4], 0x55)
        &&& is_either_case(s[5], 0x4e)
        &&& is_either_case(s[6], 0x43)
        &&& s[7] == BACKSLASH
    } else {
        s.len() >= 3 && winpath::is_sep(s[0]) && winpath::is_sep(s[1]) && s[2] != DOT && s[2] != QUESTION
    }
}

/// What follows the leading separators, or `\\?\UNC\` written in capitals.
pub open spec fn unc_body(s: Seq<u16>) -> Option<Seq<u16>> {
    if has_verbatim_start(s) && s.len() >= 8 && s[4] == 0x55 && s[5] == 0x4e && s[6] == 0x43 && s[7]
        == BACKSLASH {
        Some(s.subrange(8, s.len() as int))
    } else if is_unc(s) {
        Some(s.subrange(2, s.len() as int))
    } else {
        None
    }
}

/// The server name of a UNC path.
pub open spec fn unc_host(s: Seq<u16>) -> Option<Seq<u16>> {
    match unc_body(s) {
        Some(body) => {
            let end = winpath::piece_end(body, 0, false);
            if end > 0 {
                Some(body.subrange(0, end))
            } else {
                None
            }
        },
        None => None,
    }
}

pub fn is_unc_path(path: &[u16]) -> (unc: bool)
    ensures
        unc == is_unc(path@),
{
    if path.len() >= 4 && path[0] == BACKSLASH && path[1] == BACKSLASH && path[2] == QUESTION
        && path[3] == BACKSLASH {
        if path.len() < 8 {
            return false;
        }
        let u: u16 = path[4];
        let n: u16 = path[5];
        let c: u16 = path[6];
        assert((u | 0x20 == 0x75) == (u == 0x55 || u == 0x75)) by (bit_vector);
        assert((n | 0x20 == 0x6e) == (n == 0x4e || n == 0x6e)) by (bit_vector);
        assert((c | 0x20 == 0x63) == (c == 0x43 || c == 0x63)) by (bit_vector);
        return (u | 0x20) == 0x75 && (n | 0x20) == 0x6e && (c | 0x20) == 0x63 && path[7]
            == BACKSLASH;
    }
    path.len() >= 3 && unit_is_sep(path[0]) && unit_is_sep(path[1]) && path[2] != DOT && path[2]
        != QUESTION
}

fn unc_body_units(path: &[u16]) -> (body: Option<Vec<u16>>)
    ensures
        body is Some <==> unc_body(path@) is Some,
        body matches Some(body) ==> unc_body(path@) == Some(body@),
{
    if path.len() >= 8 && path[0] == BACKSLASH && path[1] == BACKSLASH && path[2] == QUESTION
        && path[3] == BACKSLASH && path[4] == 0x55 && path[5] == 0x4e && path[6] == 0x43 && path[7]
        == BACKSLASH {
        Some(units_copy(path, 8, path.len()))
    } else if is_unc_path(path) {
        Some(units_copy(path, 2, path.len()))
    } else {
        None
    }
}

fn first_sep(units: &[u16]) -> (end: usize)
    ensures
        end == winpath::piece_end(units@, 0, false),
        end <= units@.len(),
        forall|i: int| 0 <= i < end ==> !winpath::is_sep(units@[i]),
{
    let mut end: usize = 0;
    while end < units.len() && !unit_is_sep(units[end])
        invariant
            end <= units@.len(),
            winpath::piece_end(units@, 0, false) == winpath::piece_end(units@, end as int, false),
            forall|i: int| 0 <= i < end ==> !winpath::is_sep(units@[i]),
        decreases units@.len() - end,
    {
        end += 1;
    }
    end
}

pub(crate) fn unc_host_units(path: &[u16]) -> (host: Option<Vec<u16>>)
    ensures
        host is Some <==> unc_host(path@) is Some,
        host matches Some(host) ==> unc_host(path@) == Some(host@) && host@.len() > 0,
{
    match unc_body_units(path) {
        Some(body) => {
            let end: usize = first_sep(body.as_slice());
            if end > 0 {
                Some(units_copy(body.as_slice(), 0, end))
            } else {
                None
            }
        },
        None => None,
    }
}

/// The server name as text in small letters, when it is valid UTF-16 and more than white space.
pub open spec fn host_key(s: Seq<u16>) -> Option<Seq<char>> {
    match unc_host(s) {
        Some(host) => if text::valid_utf16(host) && text::trimmed(text::utf16_lossy(host)).len() > 0 {
            Some(text::ascii_lower_text(text::trimmed(text::utf16_lossy(host))))
        } else {
            None
        },
        None => None,
    }
}

pub fn unc_host_key(path: &[u16]) -> (key: Option<String>)
    ensures
        key is Some <==> host_key(path@) is Some,
        key matches Some(key) ==> host_key(path@) == Some(key@),
{
    match unc_host_units(path) {
        Some(host) => match decode_strict(host.as_slice()) {
            Some(text) => {
                let kept = trim_chars(text.as_slice());
                if kept.len() > 0 {
                    let lowered = lower_chars(kept.as_slice());
                    Some(string_from_chars(lowered.as_slice()))
                } else {
                    None
                }
            },
            None => None,
        },
        None => None,
    }
}

/// A UNC path that names a server and nothing below it.
pub open spec fn is_server_root(s: Seq<u16>) -> bool {
    match unc_body(s) {
        Some(body) => {
            let end = winpath::piece_end(body, 0, false);
            end > 0 && forall|i: int| end <= i < body.len() ==> winpath::is_sep(#[trigger] body[i])
        },
        None => false,
    }
}

pub fn is_unc_server_root(path: &[u16]) -> (root: bool)
    ensures
        root == is_server_root(path@),
{
    match unc_body_units(path) {
        Some(body) => {
            let end: usize = first_sep(body.as_slice());
            let mut i: usize = end;
            while i < body.len()
                invariant
                    end <= i <= body@.len(),
                    forall|j: int| end <= j < i ==> winpath::is_sep(#[trigger] body@[j]),
                    end == winpath::piece_end(body@, 0, false),
                    unc_body(path@) == Some(body@),
                decreases body@.len() - i,
            {
                if !unit_is_sep(body[i]) {
                    return false;
                }
                i += 1;
            }
            end > 0
        },
        None => false,
    }
}

#[derive(Debug, Clone, PartialEq, Eq, Hash)]
pub struct NetworkDeviceId(pub Vec<u16>);

/// The server by which requests to the network are grouped.
#[derive(Debug, Clone, PartialEq, Eq, Hash)]
pub struct NetworkExecutionKey(pub Vec<u16>);

impl NetworkExecutionKey {
    /// The server name in ASCII small letters.
    pub fn from_unc(path: &[u16]) -> (key: Option<Self>)
        ensures
            key is Some <==> unc_host(path@) is Some,
            key matches Some(key) ==> key.0@ == wide::ascii_lower(unc_host(path@)->0),
    {
        match unc_host_units(path) {
            Some(host) => Some(NetworkExecutionKey(lower_units(host.as_slice()))),
            None => None,
        }
    }
}

pub fn network_device_id(path: &[u16]) -> (id: NetworkDeviceId)
    ensures
        id.0@ == path@,
{
    NetworkDeviceId(units_copy_all(path))
}

// ---- errors ----

#[derive(Debug, Clone, Copy, PartialEq, Eq, Structural)]
pub enum NetworkErrorKind {
    NotFound,
    PermissionDenied,
    Disconnected,
    TimedOut,
    Cancelled,
    InvalidTarget,
    Failed,
}

pub open spec fn network_error_kind(kind: ErrorKind) -> NetworkErrorKind {
    match kind {
        ErrorKind::NotFound => NetworkErrorKind::NotFound,
        ErrorKind::PermissionDenied => NetworkErrorKind::PermissionDenied,
        ErrorKind::Interrupted => NetworkErrorKind::Cancelled,
        ErrorKind::TimedOut => NetworkErrorKind::TimedOut,
        ErrorKind::ConnectionAborted => NetworkErrorKind::Disconnected,
        ErrorKind::ConnectionReset => NetworkErrorKind::Disconnected,
        ErrorKind::ConnectionRefused => NetworkErrorKind::Disconnected,
        ErrorKind::NotConnected => NetworkErrorKind::Disconnected,
        ErrorKind::NetworkDown => NetworkErrorKind::Disconnected,
        ErrorKind::NetworkUnreachable => NetworkErrorKind::Disconnected,
        ErrorKind::HostUnreachable => NetworkErrorKind::Disconnected,
        ErrorKind::InvalidInput => NetworkErrorKind::InvalidTarget,
        ErrorKind::InvalidData => NetworkErrorKind::InvalidTarget,
        _ => NetworkErrorKind::Failed,
    }
}

pub fn classify_network_error(error: &IoError) -> (kind: NetworkErrorKind)
    ensures
        kind == network_error_kind(error.kind),
{
    match error.kind {
        ErrorKind::NotFound => NetworkErrorKind::NotFound,
        ErrorKind::PermissionDenied => NetworkErrorKind::PermissionDenied,
        ErrorKind::Interrupted => NetworkErrorKind::Cancelled,
        ErrorKind::TimedOut => NetworkErrorKind::TimedOut,
        ErrorKind::ConnectionAborted
        | ErrorKind::ConnectionReset
        | ErrorKind::ConnectionRefused
        | ErrorKind::NotConnected
        | ErrorKind::NetworkDown
        | ErrorKind::NetworkUnreachable
        | ErrorKind::HostUnreachable => NetworkErrorKind::Disconnected,
        ErrorKind::InvalidInput | ErrorKind::InvalidData => NetworkErrorKind::InvalidTarget,
        _ => NetworkErrorKind::Failed,
    }
}

// ---- the catalog of locations ----

#[derive(Debug, Clone, Copy, PartialEq, Eq, Structural)]
pub enum NetworkLocationSource {
    WindowsImported,
    AsterOwned,
}

#[derive(Debug, Clone, PartialEq, Eq)]
pub enum NetworkTarget {
    WindowsPath(Vec<u16>),
    ShellItemId(Vec<u16>),
}

#[derive(Debug, Clone, PartialEq, Eq)]
pub struct NetworkLocation {
    pub id: u64,
    pub source: NetworkLocationSource,
    pub display_name: String,
    pub sort_order: u32,
    pub target: NetworkTarget,
}

#[derive(Debug, Clone, Copy, PartialEq, Eq, Structural)]
pub enum NetworkLocationCatalogError {
    EmptyName,
    InvalidUncPath,
    NotFound,
    ImportedReadOnly,
    DuplicateTarget,
}

pub open spec fn is_owned(location: NetworkLocation) -> bool {
    location.source == NetworkLocationSource::AsterOwned
}

/// The position of the first location with this id, or the number of locations.
pub open spec fn position_of(locations: Seq<NetworkLocation>, id: u64) -> int
    decreases locations.len(),
{
    if locations.len() == 0 {
        0
    } else {
        let before = position_of(locations.drop_last(), id);
        if before < locations.len() - 1 || locations.last().id == id {
            before
        } else {
            locations.len() as int
        }
    }
}

pub open spec fn has_id(locations: Seq<NetworkLocation>, id: u64) -> bool {
    exists|i: int| 0 <= i < locations.len() && (#[trigger] locations[i]).id == id
}

/// Some location already leads to this path.
pub open spec fn leads_to(locations: Seq<NetworkLocation>, path: Seq<u16>) -> bool {
    exists|i: int|
        0 <= i < locations.len() && ((#[trigger] locations[i]).target matches
            NetworkTarget::WindowsPath(target) && winpath::same_path(target@, path))
}

/// How many of the first `n` locations are owned.
pub open spec fn owned_before(locations: Seq<NetworkLocation>, n: int) -> int
    decreases n,
{
    if n <= 0 {
        0
    } else {
        owned_before(locations, n - 1) + if is_owned(locations[n - 1]) {
            1int
        } else {
            0int
        }
    }
}

/// Owned locations numbered in their order; imported ones as they are.
pub open spec fn renumbered(locations: Seq<NetworkLocation>) -> Seq<NetworkLocation> {
    Seq::new(
        locations.len(),
        |i: int|
            if is_owned(locations[i]) {
                NetworkLocation { sort_order: owned_before(locations, i) as u32, ..locations[i] }
            } else {
                locations[i]
            },
    )
}

/// The positions of the owned locations.
pub open spec fn owned_positions(locations: Seq<NetworkLocation>) -> Seq<int>
    decreases locations.len(),
{
    if locations.len() == 0 {
        Seq::empty()
    } else if is_owned(locations.last()) {
        owned_positions(locations.drop_last()).push(locations.len() - 1)
    } else {
        owned_positions(locations.drop_last())
    }
}

/// Where a location goes that is to be the `index`-th owned one: before the one that is now, else
/// behind the last owned one, else at the end.
pub open spec fn destination_of(locations: Seq<NetworkLocation>, index: int) -> int {
    let owned = owned_positions(locations);
    if index < owned.len() {
        owned[index]
    } else if owned.len() > 0 {
        owned.last() + 1
    } else {
        locations.len() as int
    }
}

/// The largest sort order, or zero.
pub open spec fn largest_order(locations: Seq<NetworkLocation>) -> u32
    decreases locations.len(),
{
    if locations.len() == 0 {
        0
    } else {
        let before = largest_order(locations.drop_last());
        if locations.last().sort_order > before {
            locations.last().sort_order
        } else {
            before
        }
    }
}

pub open spec fn next_order(locations: Seq<NetworkLocation>) -> u32 {
    let largest = largest_order(locations);
    if locations.len() == 0 || largest == u32::MAX {
        largest
    } else {
        (largest + 1) as u32
    }
}

pub const FNV_OFFSET: u64 = 0xcbf29ce484222325;

pub const FNV_PRIME: u64 = 0x100000001b3;

pub open spec fn fnv_byte(hash: u64, byte: u64) -> u64 {
    (hash ^ byte).wrapping_mul(FNV_PRIME)
}

/// FNV-1a over the little-endian bytes of the units.
pub open spec fn fnv_units(units: Seq<u16>) -> u64
    decreases units.len(),
{
    if units.len() == 0 {
        FNV_OFFSET
    } else {
        let before = fnv_units(units.drop_last());
        let unit = units.last();
        fnv_byte(fnv_byte(before, (unit % 256) as u64), (unit / 256) as u64)
    }
}

/// The `k`-th id to be tried for a path: counting up from its hash, round past zero.
pub open spec fn id_candidate(path: Seq<u16>, k: int) -> u64 {
    let hash = fnv_units(path);
    let first = if hash == 0 {
        1int
    } else {
        hash as int
    };
    ((first - 1 + k) % 0xffff_ffff_ffff_ffff + 1) as u64
}

/// The first candidate for the path that no location has yet.
pub open spec fn is_fresh_id(locations: Seq<NetworkLocation>, path: Seq<u16>, id: u64) -> bool {
    exists|k: int|
        0 <= k <= locations.len() && id == #[trigger] id_candidate(path, k) && !has_id(
            locations,
            id,
        ) && forall|j: int| 0 <= j < k ==> has_id(locations, #[trigger] id_candidate(path, j))
}

fn hash_units(path: &[u16]) -> (hash: u64)
    ensures
        hash == fnv_units(path@),
{
    let mut hash: u64 = FNV_OFFSET;
    let mut i: usize = 0;
    while i < path.len()
        invariant
            i <= path@.len(),
            hash == fnv_units(path@.subrange(0, i as int)),
        decreases path@.len() - i,
    {
        let unit: u16 = path[i];
        hash = (hash ^ ((unit % 256) as u64)).wrapping_mul(FNV_PRIME);
        hash = (hash ^ ((unit / 256) as u64)).wrapping_mul(FNV_PRIME);
        i += 1;
        assert(path@.subrange(0, i as int).drop_last() =~= path@.subrange(0, i - 1));
    }
    assert(path@.subrange(0, i as int) =~= path@);
    hash
}

fn id_is_taken(locations: &Vec<NetworkLocation>, id: u64) -> (taken: bool)
    ensures
        taken == has_id(locations@, id),
{
    let mut i: usize = 0;
    while i < locations.len()
        invariant
            i <= locations@.len(),
            forall|j: int| 0 <= j < i ==> (#[trigger] locations@[j]).id != id,
        decreases locations@.len() - i,
    {
        if locations[i].id == id {
            return true;
        }
        i += 1;
    }
    false
}

/// Fewer than all ids can be taken: the first `k` candidates differ, so `k` locations have them.
proof fn lemma_taken_candidates(locations: Seq<NetworkLocation>, path: Seq<u16>, k: int)
    requires
        0 <= k <= 0xffff_ffff_ffff_ffff,
        forall|j: int| 0 <= j < k ==> has_id(locations, #[trigger] id_candidate(path, j)),
    ensures
        k <= locations.len(),
{
    let tried = Seq::new(k as nat, |j: int| id_candidate(path, j));
    let ids = Seq::new(locations.len(), |i: int| locations[i].id);
    assert(tried.no_duplicates()) by {
        assert forall|i: int, j: int| 0 <= i < k && 0 <= j < k && i != j implies tried[i]
            != tried[j] by {
            lemma_candidates_differ(path, i, j);
        }
    }
    tried.unique_seq_to_set();
    ids.lemma_cardinality_of_set();
    assert(tried.to_set().subset_of(ids.to_set())) by {
        assert forall|id: u64| tried.to_set().contains(id) implies ids.to_set().contains(id) by {
            let j = choose|j: int| 0 <= j < tried.len() && tried[j] == id;
            assert(has_id(locations, id_candidate(path, j)));
            let i = choose|i: int|
                0 <= i < locations.len() && (#[trigger] locations[i]).id == id_candidate(path, j);
            assert(ids[i] == id);
        }
    }
    vstd::set_lib::lemma_len_subset(tried.to_set(), ids.to_set());
}

proof fn lemma_candidates_differ(path: Seq<u16>, i: int, j: int)
    requires
        0 <= i < 0xffff_ffff_ffff_ffff,
        0 <= j < 0xffff_ffff_ffff_ffff,
        i != j,
    ensures
        id_candidate(path, i) != id_candidate(path, j),
{
    let hash = fnv_units(path);
    let first = if hash == 0 {
        1int
    } else {
        hash as int
    };
    let m = 0xffff_ffff_ffff_ffffint;
    let a = first - 1 + i;
    let b = first - 1 + j;
    assert(a % m != b % m) by (nonlinear_arith)
        requires
            m == 0xffff_ffff_ffff_ffff,
            0 <= a - (first - 1) < m,
            0 <= b - (first - 1) < m,
            a != b,
    ;
}

fn stable_network_location_id(path: &[u16], locations: &Vec<NetworkLocation>) -> (id: u64)
    requires
        locations@.len() < u64::MAX,
    ensures
        is_fresh_id(locations@, path@, id),
{
    let hash: u64 = hash_units(path);
    let mut id: u64 = if hash == 0 {
        1
    } else {
        hash
    };
    let ghost mut k: int = 0;
    assert(id == id_candidate(path@, 0));
    while id_is_taken(locations, id)
        invariant
            0 <= k <= locations@.len() < u64::MAX,
            id == id_candidate(path@, k),
            forall|j: int| 0 <= j < k ==> has_id(locations@, #[trigger] id_candidate(path@, j)),
        decreases locations@.len() - k,
    {
        proof {
            lemma_taken_candidates(locations@, path@, k + 1);
            k = k + 1;
        }
        id = if id == u64::MAX {
            1
        } else {
            id + 1
        };
    }
    assert(id == id_candidate(path@, k));
    id
}

#[derive(Debug, Clone, PartialEq, Eq)]
pub struct NetworkLocationCatalog {
    locations: Vec<NetworkLocation>,
}

impl View for NetworkLocationCatalog {
    type V = Seq<NetworkLocation>;

    closed spec fn view(&self) -> Seq<NetworkLocation> {
        self.locations@
    }
}

/// Why a location cannot be added, in the order in which the conditions are looked at.
pub open spec fn add_refusal(
    locations: Seq<NetworkLocation>,
    path: Seq<u16>,
    name: Seq<char>,
) -> Option<NetworkLocationCatalogError> {
    if text::trimmed(name).len() == 0 {
        Some(NetworkLocationCatalogError::EmptyName)
    } else if !is_unc(path) {
        Some(NetworkLocationCatalogError::InvalidUncPath)
    } else if leads_to(locations, path) {
        Some(NetworkLocationCatalogError::DuplicateTarget)
    } else {
        None
    }
}

/// Why the location with this id cannot be changed.
pub open spec fn change_refusal(locations: Seq<NetworkLocation>, id: u64) -> Option<
    NetworkLocationCatalogError,
> {
    let at = position_of(locations, id);
    if at >= locations.len() {
        Some(NetworkLocationCatalogError::NotFound)
    } else if !is_owned(locations[at]) {
        Some(NetworkLocationCatalogError::ImportedReadOnly)
    } else {
        None
    }
}

pub open spec fn rename_refusal(
    locations: Seq<NetworkLocation>,
    id: u64,
    name: Seq<char>,
) -> Option<NetworkLocationCatalogError> {
    if text::trimmed(name).len() == 0 {
        Some(NetworkLocationCatalogError::EmptyName)
    } else {
        change_refusal(locations, id)
    }
}

/// The catalog after the owned location with this id has been taken out.
pub open spec fn after_remove(locations: Seq<NetworkLocation>, id: u64) -> Seq<NetworkLocation> {
    renumbered(locations.remove(position_of(locations, id)))
}

/// The catalog after the owned location with this id has become the `index`-th owned one.
pub open spec fn after_move(locations: Seq<NetworkLocation>, id: u64, index: int) -> Seq<
    NetworkLocation,
> {
    let at = position_of(locations, id);
    let rest = locations.remove(at);
    renumbered(rest.insert(destination_of(rest, index), locations[at]))
}

fn find_id(locations: &Vec<NetworkLocation>, id: u64) -> (at: Option<usize>)
    ensures
        match at {
            Some(at) => at == position_of(locations@, id) && at < locations@.len()
                && locations@[at as int].id == id,
            None => position_of(locations@, id) == locations@.len(),
        },
{
    let mut i: usize = 0;
    while i < locations.len()
        invariant
            i <= locations@.len(),
            position_of(locations@.subrange(0, i as int), id) == i,
        decreases locations@.len() - i,
    {
        assert(locations@.subrange(0, i + 1).drop_last() =~= locations@.subrange(0, i as int));
        if locations[i].id == id {
            proof {
                lemma_position_extends(locations@, id, i + 1);
            }
            return Some(i);
        }
        i += 1;
    }
    assert(locations@.subrange(0, i as int) =~= locations@);
    None
}

proof fn lemma_position_extends(locations: Seq<NetworkLocation>, id: u64, n: int)
    requires
        0 <= n <= locations.len(),
        position_of(locations.subrange(0, n), id) < n,
    ensures
        position_of(locations, id) == position_of(locations.subrange(0, n), id),
    decreases locations.len() - n,
{
    if n < locations.len() {
        assert(locations.subrange(0, n + 1).drop_last() =~= locations.subrange(0, n));
        lemma_position_extends(locations, id, n + 1);
    } else {
        assert(locations.subrange(0, n) =~= locations);
    }
}

fn path_is_listed(locations: &Vec<NetworkLocation>, path: &[u16]) -> (listed: bool)
    ensures
        listed == leads_to(locations@, path@),
{
    let mut i: usize = 0;
    while i < locations.len()
        invariant
            i <= locations@.len(),
            forall|j: int|
                0 <= j < i ==> !((#[trigger] locations@[j]).target matches
                    NetworkTarget::WindowsPath(target) && winpath::same_path(target@, path@)),
        decreases locations@.len() - i,
    {
        match &locations[i].target {
            NetworkTarget::WindowsPath(target) => {
                if path_eq(target.as_slice(), path) {
                    return true;
                }
            },
            NetworkTarget::ShellItemId(_) => {},
        }
        i += 1;
    }
    false
}

fn largest_sort_order(locations: &Vec<NetworkLocation>) -> (largest: u32)
    ensures
        largest == largest_order(locations@),
{
    let mut largest: u32 = 0;
    let mut i: usize = 0;
    while i < locations.len()
        invariant
            i <= locations@.len(),
            largest == largest_order(locations@.subrange(0, i as int)),
        decreases locations@.len() - i,
    {
        assert(locations@.subrange(0, i + 1).drop_last() =~= locations@.subrange(0, i as int));
        if locations[i].sort_order > largest {
            largest = locations[i].sort_order;
        }
        i += 1;
    }
    assert(locations@.subrange(0, i as int) =~= locations@);
    largest
}

fn name_is_blank(name: &String) -> (blank: bool)
    ensures
        blank == (text::trimmed(name@).len() == 0),
{
    let chars = str_chars(name.as_str());
    trim_chars(chars.as_slice()).len() == 0
}

impl Default for NetworkLocationCatalog {
    fn default() -> (catalog: Self)
        ensures
            catalog@ == Seq::<NetworkLocation>::empty(),
    {
        Self::new(Vec::new())
    }
}

impl NetworkLocationCatalog {
    pub fn new(locations: Vec<NetworkLocation>) -> (catalog: Self)
        ensures
            catalog@ == locations@,
    {
        Self { locations }
    }

    pub fn locations(&self) -> (locations: &[NetworkLocation])
        ensures
            locations@ == self@,
    {
        self.locations.as_slice()
    }

    /// Adds an owned location for a UNC path, with an id made from the path.
    pub fn add_unc(&mut self, path: Vec<u16>, display_name: String) -> (added: Result<
        u64,
        NetworkLocationCatalogError,
    >)
        requires
            old(self)@.len() < u64::MAX,
        ensures
            match add_refusal(old(self)@, path@, display_name@) {
                Some(refusal) => added == Err::<u64, _>(refusal) && final(self)@ == old(self)@,
                None => added is Ok && is_fresh_id(old(self)@, path@, added->Ok_0) && final(self)@
                    == old(self)@.push(
                    NetworkLocation {
                        id: added->Ok_0,
                        source: NetworkLocationSource::AsterOwned,
                        display_name,
                        sort_order: next_order(old(self)@),
                        target: NetworkTarget::WindowsPath(path),
                    },
                ),
            },
    {
        if name_is_blank(&display_name) {
            return Err(NetworkLocationCatalogError::EmptyName);
        }
        if !is_unc_path(path.as_slice()) {
            return Err(NetworkLocationCatalogError::InvalidUncPath);
        }
        if path_is_listed(&self.locations, path.as_slice()) {
            return Err(NetworkLocationCatalogError::DuplicateTarget);
        }
        let id: u64 = stable_network_location_id(path.as_slice(), &self.locations);
        let largest: u32 = largest_sort_order(&self.locations);
        let sort_order: u32 = if self.locations.len() == 0 {
            largest
        } else {
            largest.saturating_add(1)
        };
        self.locations.push(
            NetworkLocation {
                id,
                source: NetworkLocationSource::AsterOwned,
                display_name,
                sort_order,
                target: NetworkTarget::WindowsPath(path),
            },
        );
        Ok(id)
    }

    pub fn rename(&mut self, id: u64, display_name: String) -> (renamed: Result<
        (),
        NetworkLocationCatalogError,
    >)
        ensures
            match rename_refusal(old(self)@, id, display_name@) {
                Some(refusal) => renamed == Err::<(), _>(refusal) && final(self)@ == old(self)@,
                None => {
                    let at = position_of(old(self)@, id);
                    renamed is Ok && final(self)@ == old(self)@.update(
                        at,
                        NetworkLocation { display_name, ..old(self)@[at] },
                    )
                },
            },
    {
        if name_is_blank(&display_name) {
            return Err(NetworkLocationCatalogError::EmptyName);
        }
        match find_id(&self.locations, id) {
            None => Err(NetworkLocationCatalogError::NotFound),
            Some(at) => {
                if self.locations[at].source != NetworkLocationSource::AsterOwned {
                    return Err(NetworkLocationCatalogError::ImportedReadOnly);
                }
                self.locations[at].display_name = display_name;
                Ok(())
            },
        }
    }

    pub fn remove(&mut self, id: u64) -> (removed: Result<
        NetworkLocation,
        NetworkLocationCatalogError,
    >)
        ensures
            match change_refusal(old(self)@, id) {
                Some(refusal) => removed == Err::<NetworkLocation, _>(refusal) && final(self)@
                    == old(self)@,
                None => removed == Ok::<_, NetworkLocationCatalogError>(
                    old(self)@[position_of(old(self)@, id)],
                ) && final(self)@ == after_remove(old(self)@, id),
            },
    {
        match find_id(&self.locations, id) {
            None => Err(NetworkLocationCatalogError::NotFound),
            Some(at) => {
                if self.locations[at].source != NetworkLocationSource::AsterOwned {
                    return Err(NetworkLocationCatalogError::ImportedReadOnly);
                }
                let removed = self.locations.remove(at);
                self.reindex();
                Ok(removed)
            },
        }
    }

    /// Makes the location the `index`-th of the owned ones, or the last.
    pub fn move_to(&mut self, id: u64, index: usize) -> (moved: Result<
        (),
        NetworkLocationCatalogError,
    >)
        ensures
            match change_refusal(old(self)@, id) {
                Some(refusal) => moved == Err::<(), _>(refusal) && final(self)@ == old(self)@,
                None => moved is Ok && final(self)@ == after_move(old(self)@, id, index as int),
            },
    {
        match find_id(&self.locations, id) {
            None => Err(NetworkLocationCatalogError::NotFound),
            Some(at) => {
                if self.locations[at].source != NetworkLocationSource::AsterOwned {
                    return Err(NetworkLocationCatalogError::ImportedReadOnly);
                }
                let location = self.locations.remove(at);
                let destination: usize = find_destination(&self.locations, index);
                self.locations.insert(destination, location);
                self.reindex();
                Ok(())
            },
        }
    }

    fn reindex(&mut self)
        ensures
            final(self)@ == renumbered(old(self)@),
    {
        let mut i: usize = 0;
        let mut owned: usize = 0;
        let n: usize = self.locations.len();
        while i < n
            invariant
                i <= n,
                n == self.locations@.len(),
                n == old(self).locations@.len(),
                owned <= i,
                owned == owned_before(old(self).locations@, i as int),
                forall|j: int|
                    0 <= j < i ==> #[trigger] self.locations@[j] == renumbered(
                        old(self).locations@,
                    )[j],
                forall|j: int|
                    i <= j < n ==> #[trigger] self.locations@[j] == old(self).locations@[j],
            decreases n - i,
        {
            if self.locations[i].source == NetworkLocationSource::AsterOwned {
                self.locations[i].sort_order = owned as u32;
                owned += 1;
            }
            i += 1;
        }
        assert(self.locations@ =~= renumbered(old(self).locations@));
    }
}

fn find_destination(locations: &Vec<NetworkLocation>, index: usize) -> (destination: usize)
    ensures
        destination == destination_of(locations@, index as int),
        destination <= locations@.len(),
{
    let mut seen: usize = 0;
    let mut last: Option<usize> = None;
    let mut i: usize = 0;
    while i < locations.len()
        invariant
            i <= locations@.len(),
            seen <= i,
            seen <= index,
            seen == owned_positions(locations@.subrange(0, i as int)).len(),
            last is Some <==> seen > 0,
            last matches Some(at) ==> at < i && at == owned_positions(
                locations@.subrange(0, i as int),
            ).last(),
        decreases locations@.len() - i,
    {
        assert(locations@.subrange(0, i + 1).drop_last() =~= locations@.subrange(0, i as int));
        if locations[i].source == NetworkLocationSource::AsterOwned {
            if seen == index {
                proof {
                    lemma_owned_extends(locations@, i + 1);
                    let found = owned_positions(locations@.subrange(0, i + 1));
                    let all = owned_positions(locations@);
                    assert(found[index as int] == i);
                    assert(all.subrange(0, found.len() as int)[index as int] == all[index as int]);
                }
                return i;
            }
            seen += 1;
            last = Some(i);
        }
        i += 1;
    }
    assert(locations@.subrange(0, i as int) =~= locations@);
    match last {
        Some(at) => at + 1,
        None => locations.len(),
    }
}

proof fn lemma_owned_extends(locations: Seq<NetworkLocation>, n: int)
    requires
        0 <= n <= locations.len(),
    ensures
        owned_positions(locations.subrange(0, n)).is_prefix_of(owned_positions(locations)),
    decreases locations.len() - n,
{
    if n < locations.len() {
        assert(locations.subrange(0, n + 1).drop_last() =~= locations.subrange(0, n));
        lemma_owned_extends(locations, n + 1);
        let a = owned_positions(locations.subrange(0, n));
        let b = owned_positions(locations.subrange(0, n + 1));
        let c = owned_positions(locations);
        assert(a.is_prefix_of(b));
        assert(c.subrange(0, a.len() as int) =~= b.subrange(0, a.len() as int));
    } else {
        assert(locations.subrange(0, n) =~= locations);
    }
}

// ---- laws of the catalog ----

/// The imported locations, in their order.
pub open spec fn imported(locations: Seq<NetworkLocation>) -> Seq<NetworkLocation>
    decreases locations.len(),
{
    if locations.len() == 0 {
        Seq::empty()
    } else if is_owned(locations.last()) {
        imported(locations.drop_last())
    } else {
        imported(locations.drop_last()).push(locations.last())
    }
}

pub open spec fn unique_ids(locations: Seq<NetworkLocation>) -> bool {
    forall|i: int, j: int|
        0 <= i < j < locations.len() ==> (#[trigger] locations[i]).id != (#[trigger] locations[j]).id
}

proof fn lemma_imported_add(left: Seq<NetworkLocation>, right: Seq<NetworkLocation>)
    ensures
        imported(left + right) == imported(left) + imported(right),
    decreases right.len(),
{
    if right.len() == 0 {
        assert(left + right =~= left);
        assert(imported(left) + imported(right) =~= imported(left));
    } else {
        lemma_imported_add(left, right.drop_last());
        assert((left + right).drop_last() =~= left + right.drop_last());
        assert(imported(left + right) =~= imported(left) + imported(right));
    }
}

proof fn lemma_imported_single(location: NetworkLocation)
    requires
        is_owned(location),
    ensures
        imported(seq![location]) == Seq::<NetworkLocation>::empty(),
{
    assert(seq![location].drop_last() =~= Seq::<NetworkLocation>::empty());
    assert(imported(seq![location].drop_last()) =~= Seq::<NetworkLocation>::empty());
}

proof fn lemma_imported_remove(locations: Seq<NetworkLocation>, at: int)
    requires
        0 <= at < locations.len(),
        is_owned(locations[at]),
    ensures
        imported(locations.remove(at)) == imported(locations),
{
    let left = locations.subrange(0, at);
    let right = locations.subrange(at + 1, locations.len() as int);
    assert(locations.remove(at) =~= left + right);
    assert(locations =~= (left + seq![locations[at]]) + right);
    lemma_imported_single(locations[at]);
    lemma_imported_add(left, right);
    lemma_imported_add(left, seq![locations[at]]);
    lemma_imported_add(left + seq![locations[at]], right);
    assert(imported(left) + Seq::<NetworkLocation>::empty() =~= imported(left));
}

proof fn lemma_owned_before_prefix(a: Seq<NetworkLocation>, b: Seq<NetworkLocation>, n: int)
    requires
        n <= a.len(),
        n <= b.len(),
        forall|i: int| 0 <= i < n ==> is_owned(#[trigger] a[i]) == is_owned(b[i]),
    ensures
        owned_before(a, n) == owned_before(b, n),
    decreases n,
{
    if n > 0 {
        lemma_owned_before_prefix(a, b, n - 1);
        assert(is_owned(a[n - 1]) == is_owned(b[n - 1]));
    }
}

proof fn lemma_imported_renumbered(locations: Seq<NetworkLocation>)
    ensures
        imported(renumbered(locations)) == imported(locations),
    decreases locations.len(),
{
    if locations.len() > 0 {
        let short = locations.drop_last();
        lemma_imported_renumbered(short);
        assert(renumbered(locations).drop_last() =~= renumbered(short)) by {
            assert forall|i: int| 0 <= i < short.len() implies renumbered(locations)[i]
                == renumbered(short)[i] by {
                lemma_owned_before_prefix(locations, short, i);
            }
        }
    } else {
        assert(renumbered(locations) =~= locations);
    }
}

/// Removing an owned location leaves the imported ones as they were, in their order.
pub proof fn law_remove_keeps_imported(locations: Seq<NetworkLocation>, id: u64)
    requires
        change_refusal(locations, id) is None,
    ensures
        imported(after_remove(locations, id)) == imported(locations),
{
    lemma_position(locations, id);
    let at = position_of(locations, id);
    lemma_imported_remove(locations, at);
    lemma_imported_renumbered(locations.remove(at));
}

proof fn lemma_position(locations: Seq<NetworkLocation>, id: u64)
    ensures
        0 <= position_of(locations, id) <= locations.len(),
        position_of(locations, id) < locations.len() ==> locations[position_of(locations, id)].id
            == id,
    decreases locations.len(),
{
    if locations.len() > 0 {
        lemma_position(locations.drop_last(), id);
    }
}

proof fn lemma_owned_positions(locations: Seq<NetworkLocation>)
    ensures
        forall|k: int|
            0 <= k < owned_positions(locations).len() ==> 0 <= #[trigger] owned_positions(
                locations,
            )[k] < locations.len() && owned_before(locations, owned_positions(locations)[k]) == k,
        owned_before(locations, locations.len() as int) == owned_positions(locations).len(),
        owned_positions(locations).len() > 0 ==> owned_before(
            locations,
            owned_positions(locations).last() + 1,
        ) == owned_positions(locations).len(),
    decreases locations.len(),
{
    if locations.len() > 0 {
        let short = locations.drop_last();
        lemma_owned_positions(short);
        let n = locations.len() as int;
        lemma_owned_before_prefix(locations, short, n - 1);
        let before = owned_positions(short);
        assert forall|k: int| 0 <= k < owned_positions(locations).len() implies 0
            <= #[trigger] owned_positions(locations)[k] < n && owned_before(
            locations,
            owned_positions(locations)[k],
        ) == k by {
            if k < before.len() {
                assert(owned_positions(locations)[k] == before[k]);
                lemma_owned_before_prefix(locations, short, before[k]);
            }
        }
        if before.len() > 0 && !is_owned(locations.last()) {
            let last = before.last();
            assert(last == before[before.len() - 1]);
            lemma_owned_before_prefix(locations, short, last + 1);
        }
    }
}

proof fn lemma_destination(locations: Seq<NetworkLocation>, index: int)
    requires
        0 <= index,
    ensures
        0 <= destination_of(locations, index) <= locations.len(),
        owned_before(locations, destination_of(locations, index)) == if index < owned_positions(
            locations,
        ).len() {
            index
        } else {
            owned_positions(locations).len() as int
        },
{
    lemma_owned_positions(locations);
    let owned = owned_positions(locations);
    if index >= owned.len() && owned.len() > 0 {
        assert(owned.last() == owned[owned.len() - 1]);
    }
}

/// Moving an owned location leaves the imported ones as they were, in their order.
pub proof fn law_move_keeps_imported(locations: Seq<NetworkLocation>, id: u64, index: int)
    requires
        0 <= index,
        change_refusal(locations, id) is None,
    ensures
        imported(after_move(locations, id, index)) == imported(locations),
{
    lemma_position(locations, id);
    let at = position_of(locations, id);
    let rest = locations.remove(at);
    lemma_destination(rest, index);
    let to = destination_of(rest, index);
    let moved = rest.insert(to, locations[at]);
    lemma_imported_remove(locations, at);
    lemma_imported_remove(moved, to);
    assert(moved.remove(to) =~= rest);
    lemma_imported_renumbered(moved);
}

/// After a move the location is the `index`-th owned one, or the last when there are fewer.
pub proof fn law_move_reaches_rank(locations: Seq<NetworkLocation>, id: u64, index: int)
    requires
        0 <= index,
        change_refusal(locations, id) is None,
    ensures
        ({
            let others = owned_positions(locations.remove(position_of(locations, id))).len();
            let moved = after_move(locations, id, index);
            exists|at: int|
                0 <= at < moved.len() && (#[trigger] moved[at]).id == id && owned_before(moved, at)
                    == if index < others {
                    index
                } else {
                    others as int
                }
        }),
{
    lemma_position(locations, id);
    let at = position_of(locations, id);
    let rest = locations.remove(at);
    lemma_destination(rest, index);
    let to = destination_of(rest, index);
    let moved = rest.insert(to, locations[at]);
    lemma_owned_before_prefix(moved, rest, to);
    lemma_owned_before_prefix(renumbered(moved), moved, to);
    assert(after_move(locations, id, index)[to].id == id);
}

/// Once renumbered, the sort orders of the owned locations count up from zero.
pub proof fn law_owned_are_numbered(locations: Seq<NetworkLocation>, i: int)
    requires
        locations.len() <= u32::MAX,
        0 <= i < locations.len(),
        is_owned(locations[i]),
    ensures
        renumbered(locations)[i].sort_order == owned_before(renumbered(locations), i),
{
    lemma_owned_before_prefix(renumbered(locations), locations, i);
    lemma_owned_before_bound(locations, i);
}

proof fn lemma_owned_before_bound(locations: Seq<NetworkLocation>, n: int)
    requires
        0 <= n,
    ensures
        0 <= owned_before(locations, n) <= n,
    decreases n,
{
    if n > 0 {
        lemma_owned_before_bound(locations, n - 1);
    }
}

/// A new location has an id that is not zero and that no other location has.
pub proof fn law_add_keeps_ids_unique(
    locations: Seq<NetworkLocation>,
    path: Seq<u16>,
    added: NetworkLocation,
)
    requires
        unique_ids(locations),
        is_fresh_id(locations, path, added.id),
    ensures
        added.id != 0,
        unique_ids(locations.push(added)),
{
    assert(!has_id(locations, added.id));
    let all = locations.push(added);
    assert forall|i: int, j: int| 0 <= i < j < all.len() implies (#[trigger] all[i]).id != (
    #[trigger] all[j]).id by {
        if j == locations.len() {
            assert(locations[i].id != added.id);
        }
    }
}

/// Removing and moving keep every id with one location.
pub proof fn law_changes_keep_ids_unique(locations: Seq<NetworkLocation>, id: u64, index: int)
    requires
        0 <= index,
        unique_ids(locations),
        change_refusal(locations, id) is None,
    ensures
        unique_ids(after_remove(locations, id)),
        unique_ids(after_move(locations, id, index)),
        !has_id(after_remove(locations, id), id),
{
    lemma_position(locations, id);
    let at = position_of(locations, id);
    let rest = locations.remove(at);
    lemma_destination(rest, index);
    let to = destination_of(rest, index);
    let moved = rest.insert(to, locations[at]);
    assert forall|i: int| 0 <= i < rest.len() implies (#[trigger] rest[i]).id != id by {
        if i < at {
            assert(rest[i] == locations[i]);
        } else {
            assert(rest[i] == locations[i + 1]);
        }
    }
    assert(unique_ids(rest));
    assert forall|i: int, j: int| 0 <= i < j < moved.len() implies (#[trigger] moved[i]).id != (
    #[trigger] moved[j]).id by {
        let a = if i < to { i } else { i - 1 };
        let b = if j < to { j } else { j - 1 };
        if i != to {
            assert(moved[i] == rest[a]);
        }
        if j != to {
            assert(moved[j] == rest[b]);
        }
    }
}

/// No two locations lead to the same path, once that held of the catalog that was extended.
pub proof fn law_add_keeps_targets_distinct(
    locations: Seq<NetworkLocation>,
    path: Seq<u16>,
    name: Seq<char>,
    i: int,
)
    requires
        add_refusal(locations, path, name) is None,
        0 <= i < locations.len(),
    ensures
        locations[i].target matches NetworkTarget::WindowsPath(target) ==> !winpath::same_path(
            target@,
            path,
        ),
{
    assert(!leads_to(locations, path));
}

// ---- discovery of devices ----

#[derive(Debug, Clone, PartialEq, Eq)]
pub struct NetworkDeviceTarget {
    pub id: NetworkDeviceId,
    pub display_name: String,
    pub shell_identity: Option<Vec<u8>>,
    pub unc_path: Option<Vec<u16>>,
}

/// Where opening the device leads.
pub fn device_root_target(device: &NetworkDeviceTarget) -> (target: Option<Vec<u16>>)
    ensures
        target is Some <==> device.unc_path is Some,
        target matches Some(path) ==> path@ == device.unc_path->0@,
{
    match &device.unc_path {
        Some(path) => Some(units_copy_all(path.as_slice())),
        None => None,
    }
}

#[derive(Debug, Clone, Copy, PartialEq, Eq, PartialOrd, Ord, Hash, Structural)]
pub struct DiscoveryRequestId(pub u64);

#[derive(Debug, Clone, Copy, PartialEq, Eq, Structural)]
pub enum DiscoveryState {
    Idle,
    Discovering,
    Complete,
    Empty,
    Failed,
    Cancelled,
}

/// Keeps the results of the latest discovery and turns those of earlier ones away.
#[derive(Debug)]
pub struct DiscoveryCoordinator {
    generation: DiscoveryRequestId,
    cancel: Option<Arc<AtomicBool>>,
    state: DiscoveryState,
    devices: Vec<NetworkDeviceTarget>,
    error: Option<NetworkErrorKind>,
}

/// A coordinator as a value: `cancellable` while a discovery holds a flag that can stop it.
pub struct Discovery {
    pub generation: DiscoveryRequestId,
    pub cancellable: bool,
    pub state: DiscoveryState,
    pub devices: Seq<NetworkDeviceTarget>,
    pub error: Option<NetworkErrorKind>,
}

impl View for DiscoveryCoordinator {
    type V = Discovery;

    closed spec fn view(&self) -> Discovery {
        Discovery {
            generation: self.generation,
            cancellable: self.cancel is Some,
            state: self.state,
            devices: self.devices@,
            error: self.error,
        }
    }
}

/// A coordinator that has never started a discovery.
pub open spec fn idle() -> Discovery {
    Discovery {
        generation: DiscoveryRequestId(0),
        cancellable: false,
        state: DiscoveryState::Idle,
        devices: Seq::empty(),
        error: None,
    }
}

pub open spec fn begun(d: Discovery) -> Discovery {
    Discovery {
        generation: DiscoveryRequestId(
            if d.generation.0 == u64::MAX {
                u64::MAX
            } else {
                (d.generation.0 + 1) as u64
            },
        ),
        cancellable: true,
        state: DiscoveryState::Discovering,
        devices: Seq::empty(),
        error: None,
    }
}

pub open spec fn cancelled(d: Discovery) -> Discovery {
    if d.cancellable {
        Discovery { cancellable: false, state: DiscoveryState::Cancelled, ..d }
    } else {
        d
    }
}

/// Results of this request count: it is the latest, still runs, and its flag is not set.
pub open spec fn accepted(d: Discovery, request: DiscoveryRequestId, flag: bool) -> bool {
    d.generation == request && d.state == DiscoveryState::Discovering && !(d.cancellable && flag)
}

pub open spec fn appended(
    d: Discovery,
    request: DiscoveryRequestId,
    devices: Seq<NetworkDeviceTarget>,
    flag: bool,
) -> Discovery {
    if accepted(d, request, flag) {
        Discovery { devices: d.devices + devices, ..d }
    } else {
        d
    }
}

pub open spec fn finished(d: Discovery, request: DiscoveryRequestId, flag: bool) -> Discovery {
    if accepted(d, request, flag) {
        Discovery {
            cancellable: false,
            state: if d.devices.len() == 0 {
                DiscoveryState::Empty
            } else {
                DiscoveryState::Complete
            },
            ..d
        }
    } else {
        d
    }
}

pub open spec fn failed(
    d: Discovery,
    request: DiscoveryRequestId,
    error: NetworkErrorKind,
    flag: bool,
) -> Discovery {
    if accepted(d, request, flag) {
        Discovery {
            cancellable: false,
            state: if error == NetworkErrorKind::Cancelled {
                DiscoveryState::Cancelled
            } else {
                DiscoveryState::Failed
            },
            error: Some(error),
            ..d
        }
    } else {
        d
    }
}

impl Default for DiscoveryCoordinator {
    fn default() -> (coordinator: Self)
        ensures
            coordinator@ == idle(),
    {
        Self::new()
    }
}

/// The flag was made with this value.
pub open spec fn made_with(flag: Arc<AtomicBool>, value: bool) -> bool {
    call_ensures(AtomicBool::new, (value,), *flag)
}

/// The flag was set.
pub open spec fn was_set(flag: Arc<AtomicBool>) -> bool {
    call_ensures(AtomicBool::store, (&*flag, true, Ordering::Release), ())
}

/// The flag was read as this.
pub open spec fn was_read(flag: Arc<AtomicBool>, says: bool) -> bool {
    call_ensures(AtomicBool::load, (&*flag, Ordering::Acquire), says)
}

fn make_flag<F: Fn(bool) -> AtomicBool>(make: F, value: bool) -> (flag: AtomicBool)
    requires
        call_requires(make, (value,)),
    ensures
        call_ensures(make, (value,), flag),
{
    make(value)
}

fn set_flag<F: Fn(&AtomicBool, bool, Ordering)>(set: F, flag: &AtomicBool)
    requires
        call_requires(set, (flag, true, Ordering::Release)),
    ensures
        call_ensures(set, (flag, true, Ordering::Release), ()),
{
    set(flag, true, Ordering::Release)
}

fn read_flag<F: Fn(&AtomicBool, Ordering) -> bool>(read: F, flag: &AtomicBool) -> (says: bool)
    requires
        call_requires(read, (flag, Ordering::Acquire)),
    ensures
        call_ensures(read, (flag, Ordering::Acquire), says),
{
    read(flag, Ordering::Acquire)
}

impl DiscoveryCoordinator {
    pub fn new() -> (coordinator: Self)
        ensures
            coordinator@ == idle(),
    {
        Self {
            generation: DiscoveryRequestId(0),
            cancel: None,
            state: DiscoveryState::Idle,
            devices: Vec::new(),
            error: None,
        }
    }

    /// The flag is the one that this coordinator asks about its running discovery.
    pub closed spec fn asks(&self, flag: Arc<AtomicBool>) -> bool {
        self.cancel == Some(flag)
    }

    /// Starts a new discovery and stops the one before it. The flag that is handed out was made
    /// unset, and asks the new discovery to stop once it is set; what it holds later is not part of
    /// the value.
    pub fn begin(&mut self) -> (request: (DiscoveryRequestId, Arc<AtomicBool>))
        ensures
            final(self)@ == begun(old(self)@),
            request.0 == final(self)@.generation,
            final(self).asks(request.1),
            made_with(request.1, false),
            old(self)@.cancellable ==> exists|flag: Arc<AtomicBool>|
                old(self).asks(flag) && was_set(flag),
    {
        self.cancel_current();
        self.generation = DiscoveryRequestId(self.generation.0.saturating_add(1));
        let cancel = Arc::new(make_flag(AtomicBool::new, false));
        self.cancel = Some(cancel.clone());
        self.state = DiscoveryState::Discovering;
        self.devices.clear();
        self.error = None;
        (self.generation, cancel)
    }

    /// Stops a discovery that runs, and hands out its flag, which is then to be set.
    pub fn stop(&mut self) -> (flag: Option<Arc<AtomicBool>>)
        ensures
            final(self)@ == cancelled(old(self)@),
            flag is Some <==> old(self)@.cancellable,
            flag matches Some(flag) ==> old(self).asks(flag),
    {
        let cancel = self.cancel.take();
        if cancel.is_some() {
            self.state = DiscoveryState::Cancelled;
        }
        cancel
    }

    /// Stops a discovery that runs, and sets its flag. What the flag holds from then on is not part
    /// of the value: others may set it too.
    pub fn cancel_current(&mut self)
        ensures
            final(self)@ == cancelled(old(self)@),
            old(self)@.cancellable ==> exists|flag: Arc<AtomicBool>|
                old(self).asks(flag) && was_set(flag),
    {
        if let Some(cancel) = self.stop() {
            set_flag(AtomicBool::store, &cancel);
            assert(old(self).asks(cancel) && was_set(cancel));
        }
    }

    /// What the flag of the running discovery was read as; false when none runs.
    pub open spec fn flag_says(&self, says: bool) -> bool {
        if self@.cancellable {
            exists|flag: Arc<AtomicBool>| self.asks(flag) && was_read(flag, says)
        } else {
            !says
        }
    }

    fn cancel_requested(&self) -> (says: bool)
        ensures
            self.flag_says(says),
    {
        match &self.cancel {
            Some(cancel) => {
                let says = read_flag(AtomicBool::load, cancel);
                assert(self.asks(*cancel) && was_read(*cancel, says));
                says
            },
            None => false,
        }
    }

    /// Whether results of the request count, given what its flag says.
    pub fn accepts_given(&self, request_id: DiscoveryRequestId, flag: bool) -> (accept: bool)
        ensures
            accept == accepted(self@, request_id, flag),
    {
        self.generation == request_id && self.state == DiscoveryState::Discovering && !(
        self.cancel.is_some() && flag)
    }

    pub fn accepts(&self, request_id: DiscoveryRequestId) -> (accept: bool)
        ensures
            exists|says: bool| #[trigger]
                self.flag_says(says) && accept == accepted(self@, request_id, says),
    {
        self.accepts_given(request_id, self.cancel_requested())
    }

    /// Adds devices, given what the flag of the request says.
    pub fn append_given(
        &mut self,
        request_id: DiscoveryRequestId,
        devices: Vec<NetworkDeviceTarget>,
        flag: bool,
    ) -> (accept: bool)
        ensures
            accept == accepted(old(self)@, request_id, flag),
            final(self)@ == appended(old(self)@, request_id, devices@, flag),
    {
        if !self.accepts_given(request_id, flag) {
            return false;
        }
        let mut devices = devices;
        self.devices.append(&mut devices);
        true
    }

    pub fn append(&mut self, request_id: DiscoveryRequestId, devices: Vec<NetworkDeviceTarget>) -> (accept: bool)
        ensures
            exists|says: bool| #[trigger]
                old(self).flag_says(says) && accept == accepted(old(self)@, request_id, says)
                    && final(self)@ == appended(old(self)@, request_id, devices@, says),
    {
        let flag = self.cancel_requested();
        self.append_given(request_id, devices, flag)
    }

    /// Ends the discovery, given what the flag of the request says.
    pub fn finish_given(&mut self, request_id: DiscoveryRequestId, flag: bool) -> (accept: bool)
        ensures
            accept == accepted(old(self)@, request_id, flag),
            final(self)@ == finished(old(self)@, request_id, flag),
    {
        if !self.accepts_given(request_id, flag) {
            return false;
        }
        self.state = if self.devices.is_empty() {
            DiscoveryState::Empty
        } else {
            DiscoveryState::Complete
        };
        self.cancel = None;
        true
    }

    pub fn finish(&mut self, request_id: DiscoveryRequestId) -> (accept: bool)
        ensures
            exists|says: bool| #[trigger]
                old(self).flag_says(says) && accept == accepted(old(self)@, request_id, says)
                    && final(self)@ == finished(old(self)@, request_id, says),
    {
        let flag = self.cancel_requested();
        self.finish_given(request_id, flag)
    }

    /// Ends the discovery with an error, given what the flag of the request says.
    pub fn fail_given(
        &mut self,
        request_id: DiscoveryRequestId,
        error: NetworkErrorKind,
        flag: bool,
    ) -> (accept: bool)
        ensures
            accept == accepted(old(self)@, request_id, flag),
            final(self)@ == failed(old(self)@, request_id, error, flag),
    {
        if !self.accepts_given(request_id, flag) {
            return false;
        }
        self.state = if error == NetworkErrorKind::Cancelled {
            DiscoveryState::Cancelled
        } else {
            DiscoveryState::Failed
        };
        self.error = Some(error);
        self.cancel = None;
        true
    }

    pub fn fail(&mut self, request_id: DiscoveryRequestId, error: NetworkErrorKind) -> (accept: bool)
        ensures
            exists|says: bool| #[trigger]
                old(self).flag_says(says) && accept == accepted(old(self)@, request_id, says)
                    && final(self)@ == failed(old(self)@, request_id, error, says),
    {
        let flag = self.cancel_requested();
        self.fail_given(request_id, error, flag)
    }

    pub fn generation(&self) -> (generation: DiscoveryRequestId)
        ensures
            generation == self@.generation,
    {
        self.generation
    }

    pub fn state(&self) -> (state: DiscoveryState)
        ensures
            state == self@.state,
    {
        self.state
    }

    pub fn error(&self) -> (error: Option<NetworkErrorKind>)
        ensures
            error == self@.error,
    {
        self.error
    }

    pub fn devices(&self) -> (devices: &[NetworkDeviceTarget])
        ensures
            devices@ == self@.devices,
    {
        self.devices.as_slice()
    }
}

/// What can happen to a coordinator; `flag` is what the flag of the running discovery says.
pub enum DiscoveryStep {
    Begin,
    Cancel,
    Append { request: DiscoveryRequestId, devices: Seq<NetworkDeviceTarget>, flag: bool },
    Finish { request: DiscoveryRequestId, flag: bool },
    Fail { request: DiscoveryRequestId, error: NetworkErrorKind, flag: bool },
}

pub open spec fn stepped(d: Discovery, step: DiscoveryStep) -> Discovery {
    match step {
        DiscoveryStep::Begin => begun(d),
        DiscoveryStep::Cancel => cancelled(d),
        DiscoveryStep::Append { request, devices, flag } => appended(d, request, devices, flag),
        DiscoveryStep::Finish { request, flag } => finished(d, request, flag),
        DiscoveryStep::Fail { request, error, flag } => failed(d, request, error, flag),
    }
}

/// What a new coordinator has become after a series of steps.
pub open spec fn reached(steps: Seq<DiscoveryStep>) -> Discovery
    decreases steps.len(),
{
    if steps.len() == 0 {
        idle()
    } else {
        stepped(reached(steps.drop_last()), steps.last())
    }
}

/// The parts of a coordinator fit its state: only a running discovery can be stopped, an error
/// stands exactly where one was reported, and a result that is complete has devices, one that is
/// empty has none.
pub open spec fn consistent(d: Discovery) -> bool {
    &&& d.cancellable == (d.state == DiscoveryState::Discovering)
    &&& match d.state {
        DiscoveryState::Idle => d.devices.len() == 0 && d.error is None,
        DiscoveryState::Discovering => d.error is None,
        DiscoveryState::Complete => d.devices.len() > 0 && d.error is None,
        DiscoveryState::Empty => d.devices.len() == 0 && d.error is None,
        DiscoveryState::Failed => d.error matches Some(error) && error
            != NetworkErrorKind::Cancelled,
        DiscoveryState::Cancelled => d.error is None || d.error == Some(
            NetworkErrorKind::Cancelled,
        ),
    }
}

/// Whatever happens to a coordinator, its parts fit its state.
pub proof fn law_parts_fit_the_state(steps: Seq<DiscoveryStep>)
    ensures
        consistent(reached(steps)),
    decreases steps.len(),
{
    if steps.len() > 0 {
        law_parts_fit_the_state(steps.drop_last());
    }
}

/// A discovery that has begun has the next number and nothing found yet, and takes results under
/// that number only.
pub proof fn law_a_begun_discovery_takes_its_own_results(
    d: Discovery,
    request: DiscoveryRequestId,
    devices: Seq<NetworkDeviceTarget>,
    error: NetworkErrorKind,
    flag: bool,
)
    requires
        d.generation.0 < u64::MAX,
    ensures
        begun(d).generation.0 == d.generation.0 + 1,
        begun(d).state == DiscoveryState::Discovering,
        begun(d).devices.len() == 0,
        begun(d).error is None,
        accepted(begun(d), request, false) <==> request == begun(d).generation,
        request != begun(d).generation ==> {
            &&& appended(begun(d), request, devices, flag) == begun(d)
            &&& finished(begun(d), request, flag) == begun(d)
            &&& failed(begun(d), request, error, flag) == begun(d)
        },
{
}

/// Cancelling stops a discovery that runs, and leaves what it has found; in every other state, and
/// the second time, it changes nothing. No result is taken afterwards.
pub proof fn law_cancelling_stops_only_what_runs(
    steps: Seq<DiscoveryStep>,
    request: DiscoveryRequestId,
    flag: bool,
)
    ensures
        ({
            let d = reached(steps);
            &&& cancelled(d) == if d.state == DiscoveryState::Discovering {
                Discovery { cancellable: false, state: DiscoveryState::Cancelled, ..d }
            } else {
                d
            }
            &&& cancelled(cancelled(d)) == cancelled(d)
            &&& !accepted(cancelled(d), request, flag)
        }),
{
    law_parts_fit_the_state(steps);
}

/// Starting a discovery turns away every result of the ones before it.
pub proof fn law_stale_results_are_rejected(d: Discovery, stale: DiscoveryRequestId, flag: bool)
    requires
        stale.0 <= d.generation.0 < u64::MAX,
    ensures
        !accepted(begun(d), stale, flag),
{
}

/// Once cancelled, a discovery takes no more results and does not end again, whatever the flag
/// says.
pub proof fn law_cancelled_takes_no_results(
    d: Discovery,
    request: DiscoveryRequestId,
    devices: Seq<NetworkDeviceTarget>,
    error: NetworkErrorKind,
    flag: bool,
)
    requires
        d.cancellable,
    ensures
        appended(cancelled(d), request, devices, flag) == cancelled(d),
        finished(cancelled(d), request, flag) == cancelled(d),
        failed(cancelled(d), request, error, flag) == cancelled(d),
{
}

/// A discovery ends once: after it has finished or failed nothing changes it but a new start.
pub proof fn law_end_is_final(
    d: Discovery,
    request: DiscoveryRequestId,
    error: NetworkErrorKind,
    later: DiscoveryRequestId,
    flag: bool,
    later_flag: bool,
)
    requires
        accepted(d, request, flag),
    ensures
        !accepted(finished(d, request, flag), later, later_flag),
        !accepted(failed(d, request, error, flag), later, later_flag),
{
}

/// An accepted batch loses nothing: the devices found before stay where they were, and the batch
/// follows them whole and in its order. A batch that is turned away changes nothing.
pub proof fn law_batches_add_up(
    coordinator: &mut DiscoveryCoordinator,
    request: DiscoveryRequestId,
    batch: Vec<NetworkDeviceTarget>,
    flag: bool,
    accept: bool,
    before: &[NetworkDeviceTarget],
    after: &[NetworkDeviceTarget],
)
    requires
        call_ensures(DiscoveryCoordinator::devices, (&*old(coordinator),), before),
        call_ensures(
            DiscoveryCoordinator::append_given,
            (coordinator, request, batch, flag),
            accept,
        ),
        call_ensures(DiscoveryCoordinator::devices, (&*final(coordinator),), after),
    ensures
        accept ==> {
            &&& after@.len() == before@.len() + batch@.len()
            &&& before@.is_prefix_of(after@)
            &&& after@.skip(before@.len() as int) == batch@
        },
        !accept ==> after@ == before@,
        final(coordinator)@.state == old(coordinator)@.state,
        final(coordinator)@.generation == old(coordinator)@.generation,
        final(coordinator)@.error == old(coordinator)@.error,
{
    if accept {
        assert(after@.subrange(0, before@.len() as int) =~= before@);
        assert(after@.skip(before@.len() as int) =~= batch@);
    }
}

/// After a begin, the batches of the request that were accepted are all that was found, one behind
/// the other.
pub proof fn law_two_batches_follow_each_other(
    start: &mut DiscoveryCoordinator,
    begun: (DiscoveryRequestId, Arc<AtomicBool>),
    first: &mut DiscoveryCoordinator,
    one: Vec<NetworkDeviceTarget>,
    second: &mut DiscoveryCoordinator,
    two: Vec<NetworkDeviceTarget>,
    accepts: (bool, bool),
    found: &[NetworkDeviceTarget],
)
    requires
        call_ensures(DiscoveryCoordinator::begin, (start,), begun),
        *old(first) == *final(start),
        call_ensures(
            DiscoveryCoordinator::append_given,
            (first, begun.0, one, false),
            accepts.0,
        ),
        *old(second) == *final(first),
        call_ensures(
            DiscoveryCoordinator::append_given,
            (second, begun.0, two, false),
            accepts.1,
        ),
        call_ensures(DiscoveryCoordinator::devices, (&*final(second),), found),
    ensures
        accepts.0 && accepts.1,
        found@ == one@ + two@,
{
    assert(found@ =~= one@ + two@);
}

/// A request that is accepted is the latest, and its discovery runs and was not asked to stop.
pub proof fn law_only_the_running_request_is_accepted(
    coordinator: DiscoveryCoordinator,
    request: DiscoveryRequestId,
    flag: bool,
    accept: bool,
    latest: DiscoveryRequestId,
    state: DiscoveryState,
)
    requires
        call_ensures(DiscoveryCoordinator::accepts_given, (&coordinator, request, flag), accept),
        call_ensures(DiscoveryCoordinator::generation, (&coordinator,), latest),
        call_ensures(DiscoveryCoordinator::state, (&coordinator,), state),
    ensures
        accept ==> request == latest && state == DiscoveryState::Discovering,
        !flag && request == latest && state == DiscoveryState::Discovering ==> accept,
        flag && coordinator@.cancellable ==> !accept,
{
}

/// A discovery that has ended is empty exactly where it found nothing, and keeps all that it found.
pub proof fn law_finishing_keeps_the_devices(
    coordinator: &mut DiscoveryCoordinator,
    request: DiscoveryRequestId,
    flag: bool,
    accept: bool,
    before: &[NetworkDeviceTarget],
    after: &[NetworkDeviceTarget],
    state: DiscoveryState,
)
    requires
        call_ensures(DiscoveryCoordinator::devices, (&*old(coordinator),), before),
        call_ensures(DiscoveryCoordinator::finish_given, (coordinator, request, flag), accept),
        call_ensures(DiscoveryCoordinator::devices, (&*final(coordinator),), after),
        call_ensures(DiscoveryCoordinator::state, (&*final(coordinator),), state),
    ensures
        after@ == before@,
        accept ==> (state == DiscoveryState::Empty <==> before@.len() == 0),
        accept ==> (state == DiscoveryState::Complete <==> before@.len() > 0),
        !accept ==> state == old(coordinator)@.state,
        final(coordinator)@.error == old(coordinator)@.error,
{
}

/// A discovery that has failed says with what, keeps what it found, and counts as cancelled only
/// where that was the failure.
pub proof fn law_failing_names_the_error(
    coordinator: &mut DiscoveryCoordinator,
    request: DiscoveryRequestId,
    error: NetworkErrorKind,
    flag: bool,
    accept: bool,
    told: Option<NetworkErrorKind>,
    state: DiscoveryState,
)
    requires
        call_ensures(
            DiscoveryCoordinator::fail_given,
            (coordinator, request, error, flag),
            accept,
        ),
        call_ensures(DiscoveryCoordinator::error, (&*final(coordinator),), told),
        call_ensures(DiscoveryCoordinator::state, (&*final(coordinator),), state),
    ensures
        final(coordinator)@.devices == old(coordinator)@.devices,
        accept ==> told == Some(error),
        accept ==> (state == DiscoveryState::Cancelled <==> error == NetworkErrorKind::Cancelled),
        accept ==> state == DiscoveryState::Cancelled || state == DiscoveryState::Failed,
        !accept ==> told == old(coordinator)@.error && state == old(coordinator)@.state,
{
}

/// A system error is told apart by what it means for the network: no such place, no permission, no
/// time left, given up, no connection, or a place that makes no sense.
pub proof fn law_network_errors_are_told_apart(error: IoError, kind: NetworkErrorKind)
    requires
        call_ensures(classify_network_error, (&error,), kind),
    ensures
        kind == NetworkErrorKind::NotFound <==> error.kind == ErrorKind::NotFound,
        kind == NetworkErrorKind::PermissionDenied <==> error.kind == ErrorKind::PermissionDenied,
        kind == NetworkErrorKind::Cancelled <==> error.kind == ErrorKind::Interrupted,
        kind == NetworkErrorKind::TimedOut <==> error.kind == ErrorKind::TimedOut,
        kind == NetworkErrorKind::InvalidTarget <==> error.kind == ErrorKind::InvalidInput
            || error.kind == ErrorKind::InvalidData,
        kind == NetworkErrorKind::Disconnected <==> error.kind == ErrorKind::ConnectionAborted
            || error.kind == ErrorKind::ConnectionReset || error.kind
            == ErrorKind::ConnectionRefused || error.kind == ErrorKind::NotConnected || error.kind
            == ErrorKind::NetworkDown || error.kind == ErrorKind::NetworkUnreachable || error.kind
            == ErrorKind::HostUnreachable,
{
}

/// A location that was added stands behind the others, which stay as they were; it is owned, leads
/// to the path and bears the name that was given.
pub proof fn law_an_added_location_is_found(
    catalog: &mut NetworkLocationCatalog,
    path: Vec<u16>,
    name: String,
    added: Result<u64, NetworkLocationCatalogError>,
    before: &[NetworkLocation],
    after: &[NetworkLocation],
)
    requires
        call_ensures(NetworkLocationCatalog::locations, (&*old(catalog),), before),
        call_ensures(NetworkLocationCatalog::add_unc, (catalog, path, name), added),
        call_ensures(NetworkLocationCatalog::locations, (&*final(catalog),), after),
    ensures
        added is Err ==> after@ == before@,
        added matches Ok(id) ==> {
            let last = after@.last();
            &&& after@.len() == before@.len() + 1
            &&& before@.is_prefix_of(after@)
            &&& last.id == id
            &&& id != 0
            &&& forall|i: int| 0 <= i < before@.len() ==> (#[trigger] before@[i]).id != id
            &&& last.source == NetworkLocationSource::AsterOwned
            &&& last.display_name@ == name@
            &&& last.target matches NetworkTarget::WindowsPath(target) && target@ == path@
            &&& before@.len() == 0 ==> last.sort_order == 0
            &&& forall|i: int|
                0 <= i < before@.len() && (#[trigger] before@[i]).sort_order < u32::MAX
                    ==> before@[i].sort_order <= last.sort_order
            &&& (forall|i: int|
                0 <= i < before@.len() ==> (#[trigger] before@[i]).sort_order < u32::MAX) ==> (
            forall|i: int|
                0 <= i < before@.len() ==> (#[trigger] before@[i]).sort_order < last.sort_order)
        },
{
    if let Ok(id) = added {
        assert(after@.subrange(0, before@.len() as int) =~= before@);
        assert(!has_id(before@, id));
        lemma_largest_order(before@);
    }
}

proof fn lemma_largest_order(locations: Seq<NetworkLocation>)
    ensures
        forall|i: int|
            0 <= i < locations.len() ==> (#[trigger] locations[i]).sort_order <= largest_order(
                locations,
            ),
        locations.len() > 0 && largest_order(locations) > 0 ==> exists|i: int|
            0 <= i < locations.len() && (#[trigger] locations[i]).sort_order == largest_order(
                locations,
            ),
    decreases locations.len(),
{
    if locations.len() > 0 {
        let short = locations.drop_last();
        lemma_largest_order(short);
        assert forall|i: int| 0 <= i < locations.len() implies (#[trigger] locations[i]).sort_order
            <= largest_order(locations) by {
            if i < short.len() {
                assert(locations[i] == short[i]);
            }
        }
        if largest_order(locations) > 0 {
            if locations.last().sort_order == largest_order(locations) {
                assert(locations[locations.len() - 1].sort_order == largest_order(locations));
            } else {
                let i = choose|i: int|
                    0 <= i < short.len() && (#[trigger] short[i]).sort_order == largest_order(
                        short,
                    );
                assert(locations[i].sort_order == largest_order(locations));
            }
        }
    }
}

/// A location is added exactly where it has a name, leads to the network, and leads where no other
/// does; the first of these that fails is the reason.
pub proof fn law_why_a_location_is_not_added(
    catalog: &mut NetworkLocationCatalog,
    path: Vec<u16>,
    name: String,
    added: Result<u64, NetworkLocationCatalogError>,
)
    requires
        call_ensures(NetworkLocationCatalog::add_unc, (catalog, path, name), added),
    ensures
        ({
            let blank = forall|i: int|
                0 <= i < name@.len() ==> text::is_white_space(#[trigger] name@[i]);
            let taken = exists|i: int|
                0 <= i < old(catalog)@.len() && ((#[trigger] old(catalog)@[i]).target matches
                    NetworkTarget::WindowsPath(target) && winpath::same_path(target@, path@));
            &&& added == Err::<u64, _>(NetworkLocationCatalogError::EmptyName) <==> blank
            &&& added == Err::<u64, _>(NetworkLocationCatalogError::InvalidUncPath) <==> !blank
                && !is_unc(path@)
            &&& added == Err::<u64, _>(NetworkLocationCatalogError::DuplicateTarget) <==> !blank
                && is_unc(path@) && taken
            &&& added is Ok <==> !blank && is_unc(path@) && !taken
        }),
{
    text::lemma_blank(name@);
}

/// A renamed location has the new name and is otherwise as it was, and so are all others. Only an
/// owned one is renamed, and only to a name that is not blank.
pub proof fn law_renaming_changes_one_name(
    catalog: &mut NetworkLocationCatalog,
    id: u64,
    name: String,
    renamed: Result<(), NetworkLocationCatalogError>,
)
    requires
        call_ensures(NetworkLocationCatalog::rename, (catalog, id, name), renamed),
    ensures
        final(catalog)@.len() == old(catalog)@.len(),
        renamed is Err ==> final(catalog)@ == old(catalog)@,
        renamed is Ok ==> exists|at: int|
            {
                &&& 0 <= at < old(catalog)@.len()
                &&& (#[trigger] old(catalog)@[at]).id == id
                &&& old(catalog)@[at].source == NetworkLocationSource::AsterOwned
                &&& final(catalog)@[at].display_name@ == name@
                &&& final(catalog)@[at].id == id
                &&& final(catalog)@[at].source == old(catalog)@[at].source
                &&& final(catalog)@[at].target == old(catalog)@[at].target
                &&& final(catalog)@[at].sort_order == old(catalog)@[at].sort_order
                &&& forall|i: int|
                    0 <= i < old(catalog)@.len() && i != at ==> #[trigger] final(catalog)@[i]
                        == old(catalog)@[i]
            },
        renamed == Err::<(), _>(NetworkLocationCatalogError::EmptyName) <==> forall|i: int|
            0 <= i < name@.len() ==> text::is_white_space(#[trigger] name@[i]),
        renamed == Err::<(), _>(NetworkLocationCatalogError::NotFound) ==> forall|i: int|
            0 <= i < old(catalog)@.len() ==> (#[trigger] old(catalog)@[i]).id != id,
        renamed == Err::<(), _>(NetworkLocationCatalogError::ImportedReadOnly) ==> exists|i: int|
            0 <= i < old(catalog)@.len() && (#[trigger] old(catalog)@[i]).id == id
                && old(catalog)@[i].source == NetworkLocationSource::WindowsImported,
        renamed != Err::<(), _>(NetworkLocationCatalogError::InvalidUncPath),
        renamed != Err::<(), _>(NetworkLocationCatalogError::DuplicateTarget),
{
    text::lemma_blank(name@);
    lemma_position(old(catalog)@, id);
    lemma_first_position(old(catalog)@, id);
    let at = position_of(old(catalog)@, id);
    if at < old(catalog)@.len() {
        assert(old(catalog)@[at].id == id);
    }
}

proof fn lemma_first_position(locations: Seq<NetworkLocation>, id: u64)
    ensures
        forall|i: int|
            0 <= i < position_of(locations, id) && i < locations.len() ==> (
            #[trigger] locations[i]).id != id,
    decreases locations.len(),
{
    if locations.len() > 0 {
        let short = locations.drop_last();
        lemma_first_position(short, id);
        lemma_position(short, id);
        assert forall|i: int| 0 <= i < position_of(locations, id) && i < locations.len() implies (
        #[trigger] locations[i]).id != id by {
            if i < short.len() {
                assert(short[i] == locations[i]);
            }
        }
    }
}

/// A location that was removed is handed out, and exactly it is gone: the others keep their order,
/// names, targets and sources. An imported one is never removed.
#[verifier::rlimit(40)]
pub proof fn law_removing_takes_one_location(
    catalog: &mut NetworkLocationCatalog,
    id: u64,
    removed: Result<NetworkLocation, NetworkLocationCatalogError>,
)
    requires
        call_ensures(NetworkLocationCatalog::remove, (catalog, id), removed),
    ensures
        removed is Err ==> final(catalog)@ == old(catalog)@,
        removed matches Ok(gone) ==> {
            &&& gone.id == id
            &&& gone.source == NetworkLocationSource::AsterOwned
            &&& final(catalog)@.len() + 1 == old(catalog)@.len()
            &&& exists|at: int|
                {
                    &&& 0 <= at < old(catalog)@.len()
                    &&& #[trigger] old(catalog)@[at] == gone
                    &&& forall|i: int|
                        0 <= i < final(catalog)@.len() ==> {
                            let left = #[trigger] final(catalog)@[i];
                            let was = old(catalog)@[if i < at {
                                i
                            } else {
                                i + 1
                            }];
                            left.id == was.id && left.source == was.source && left.target
                                == was.target && left.display_name == was.display_name
                        }
                }
        },
        removed == Err::<NetworkLocation, _>(NetworkLocationCatalogError::NotFound) <==> forall|
            i: int,
        |
            0 <= i < old(catalog)@.len() ==> (#[trigger] old(catalog)@[i]).id != id,
        removed is Err ==> removed == Err::<NetworkLocation, _>(
            NetworkLocationCatalogError::NotFound,
        ) || removed == Err::<NetworkLocation, _>(NetworkLocationCatalogError::ImportedReadOnly),
{
    lemma_position(old(catalog)@, id);
    lemma_first_position(old(catalog)@, id);
    let at = position_of(old(catalog)@, id);
    if at < old(catalog)@.len() {
        assert(old(catalog)@[at].id == id);
    }
}

/// Moving loses and changes no location: the catalog without the moved one is as before, in its
/// order.
pub proof fn law_moving_moves_one_location(
    catalog: &mut NetworkLocationCatalog,
    id: u64,
    index: usize,
    moved: Result<(), NetworkLocationCatalogError>,
)
    requires
        call_ensures(NetworkLocationCatalog::move_to, (catalog, id, index), moved),
    ensures
        final(catalog)@.len() == old(catalog)@.len(),
        moved is Err ==> final(catalog)@ == old(catalog)@,
        moved is Ok ==> exists|from: int, to: int|
            {
                &&& 0 <= from < old(catalog)@.len()
                &&& 0 <= to < final(catalog)@.len()
                &&& #[trigger] old(catalog)@[from].id == id
                &&& #[trigger] final(catalog)@[to].id == id
                &&& final(catalog)@[to].target == old(catalog)@[from].target
                &&& final(catalog)@[to].display_name == old(catalog)@[from].display_name
                &&& final(catalog)@[to].source == NetworkLocationSource::AsterOwned
                &&& forall|i: int|
                    0 <= i < old(catalog)@.len() - 1 ==> {
                        let left = final(catalog)@.remove(to)[i];
                        let was = #[trigger] old(catalog)@.remove(from)[i];
                        left.id == was.id && left.source == was.source && left.target == was.target
                            && left.display_name == was.display_name
                    }
            },
{
    lemma_position(old(catalog)@, id);
    let at = position_of(old(catalog)@, id);
    if moved is Ok {
        let rest = old(catalog)@.remove(at);
        lemma_destination(rest, index as int);
        let to = destination_of(rest, index as int);
        let all = rest.insert(to, old(catalog)@[at]);
        assert(final(catalog)@ == renumbered(all));
        assert(final(catalog)@[to].id == id);
        assert(old(catalog)@[at].id == id);
        assert forall|i: int| 0 <= i < old(catalog)@.len() - 1 implies {
            let left = final(catalog)@.remove(to)[i];
            let was = #[trigger] old(catalog)@.remove(at)[i];
            left.id == was.id && left.source == was.source && left.target == was.target
                && left.display_name == was.display_name
        } by {
            assert(all.remove(to) =~= rest);
            assert(all.remove(to)[i] == rest[i]);
        }
    }
}

/// A device opens at its network path, where it has one.
pub proof fn law_a_device_opens_at_its_path(device: NetworkDeviceTarget, target: Option<Vec<u16>>)
    requires
        call_ensures(device_root_target, (&device,), target),
    ensures
        match device.unc_path {
            Some(path) => target matches Some(found) && found@ == path@,
            None => target is None,
        },
{
}

/// Paths that begin with two separators and a name lead to the network, and so do those that begin
/// with `\\?\UNC\`; paths on a drive, of a device or without those beginnings do not.
pub proof fn law_which_paths_lead_to_the_network(path: &[u16], unc: bool)
    requires
        call_ensures(is_unc_path, (path,), unc),
    ensures
        unc ==> path@.len() >= 3 && (path@[0] == 0x5c || path@[0] == 0x2f) && (path@[1] == 0x5c
            || path@[1] == 0x2f) && path@[2] != 0x2e,
        path@.len() >= 3 && (path@[0] == 0x5c || path@[0] == 0x2f) && (path@[1] == 0x5c || path@[1]
            == 0x2f) && path@[2] != 0x2e && path@[2] != 0x3f ==> unc,
        path@.len() >= 8 && path@.take(4) == seq![0x5cu16, 0x5c, 0x3f, 0x5c] ==> (unc <==> (path@[4]
            == 0x55 || path@[4] == 0x75) && (path@[5] == 0x4e || path@[5] == 0x6e) && (path@[6]
            == 0x43 || path@[6] == 0x63) && path@[7] == 0x5c),
        path@.len() >= 3 && path@[2] == 0x3f && !(path@.len() >= 8 && path@.take(4) == seq![
            0x5cu16,
            0x5c,
            0x3f,
            0x5c,
        ]) ==> !unc,
{
    if path@.len() >= 4 {
        let start = path@.take(4);
        assert(start[0] == path@[0] && start[1] == path@[1] && start[2] == path@[2] && start[3]
            == path@[3]);
        if has_verbatim_start(path@) {
            assert(start =~= seq![0x5cu16, 0x5c, 0x3f, 0x5c]);
        }
        if start == seq![0x5cu16, 0x5c, 0x3f, 0x5c] {
            assert(start[0] == 0x5c && start[1] == 0x5c && start[2] == 0x3f && start[3] == 0x5c);
        }
    }
}

/// Requests to `\\server\...` are grouped by the server, whatever lies below it and however its
/// letters are written; and `\\server` alone is the root of the server.
pub proof fn law_requests_are_grouped_by_server(
    host: Seq<u16>,
    below: Seq<u16>,
    path: &[u16],
    key: Option<NetworkExecutionKey>,
    root: bool,
)
    requires
        host.len() > 0,
        forall|i: int| 0 <= i < host.len() ==> #[trigger] host[i] != 0x5c && host[i] != 0x2f,
        host[0] != 0x2e && host[0] != 0x3f,
        below.len() > 0 ==> below[0] == 0x5c,
        path@ == seq![0x5cu16, 0x5c] + host + below,
        call_ensures(NetworkExecutionKey::from_unc, (path,), key),
        call_ensures(is_unc_server_root, (path,), root),
    ensures
        key matches Some(key) && key.0@.len() == host.len() && forall|i: int|
            0 <= i < host.len() ==> #[trigger] key.0@[i] == if 0x41 <= host[i] <= 0x5a {
                (host[i] + 0x20) as u16
            } else {
                host[i]
            },
        root <==> forall|i: int|
            0 <= i < below.len() ==> #[trigger] below[i] == 0x5c || below[i] == 0x2f,
{
    let body = host + below;
    assert(path@[0] == 0x5c && path@[1] == 0x5c && path@[2] == host[0]);
    assert(path@.subrange(2, path@.len() as int) =~= body);
    lemma_host_ends(host, below, 0);
    assert(body.subrange(0, host.len() as int) =~= host);
    assert(unc_host(path@) == Some(host));
    if root {
        assert forall|i: int| 0 <= i < below.len() implies #[trigger] below[i] == 0x5c || below[i]
            == 0x2f by {
            assert(body[host.len() + i] == below[i]);
        }
    }
    if forall|i: int| 0 <= i < below.len() ==> #[trigger] below[i] == 0x5c || below[i] == 0x2f {
        assert forall|i: int| host.len() <= i < body.len() implies winpath::is_sep(
            #[trigger] body[i],
        ) by {
            assert(body[i] == below[i - host.len()]);
        }
    }
}

proof fn lemma_host_ends(host: Seq<u16>, below: Seq<u16>, from: int)
    requires
        0 <= from <= host.len(),
        forall|i: int| 0 <= i < host.len() ==> #[trigger] host[i] != 0x5c && host[i] != 0x2f,
        below.len() > 0 ==> below[0] == 0x5c,
    ensures
        winpath::piece_end(host + below, from, false) == host.len(),
    decreases host.len() - from,
{
    if from < host.len() {
        assert((host + below)[from] == host[from]);
        lemma_host_ends(host, below, from + 1);
    } else if below.len() > 0 {
        assert((host + below)[from] == below[0]);
    }
}

/// The server of `\\server\...` is named in lower case and without white space around it, whatever lies
/// below it.
pub proof fn law_servers_are_named_alike(
    host: Seq<u16>,
    below: Seq<u16>,
    path: &[u16],
    key: Option<String>,
    id: NetworkDeviceId,
)
    requires
        host.len() > 0,
        forall|i: int| 0 <= i < host.len() ==> #[trigger] host[i] != 0x5c && host[i] != 0x2f,
        host[0] != 0x2e && host[0] != 0x3f,
        below.len() > 0 ==> below[0] == 0x5c,
        path@ == seq![0x5cu16, 0x5c] + host + below,
        call_ensures(unc_host_key, (path,), key),
        call_ensures(network_device_id, (path,), id),
    ensures
        key is Some <==> text::valid_utf16(host) && text::trimmed(text::utf16_lossy(host)).len() > 0,
        key matches Some(name) ==> {
            let shown = text::trimmed(text::utf16_lossy(host));
            &&& name@.len() == shown.len()
            &&& forall|i: int|
                0 <= i < shown.len() ==> !('A' <= #[trigger] name@[i] <= 'Z') && (name@[i]
                    == shown[i] || name@[i] as int == shown[i] as int + 0x20)
        },
        id.0@ == path@,
{
    let body = host + below;
    assert(path@[0] == 0x5c && path@[1] == 0x5c && path@[2] == host[0]);
    assert(path@.subrange(2, path@.len() as int) =~= body);
    lemma_host_ends(host, below, 0);
    assert(body.subrange(0, host.len() as int) =~= host);
    assert(unc_host(path@) == Some(host));
}

} // verus!
