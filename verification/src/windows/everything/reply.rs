//! The queries to Everything and its replies, as bytes.
use vstd::prelude::*;

use crate::bytes;
use crate::bytes::{push_u32, push_unit_bytes, read_u32, read_u64, read_units};
use crate::text;
use crate::text::{encode_text, text_of};
use crate::windows::drag_drop::effects;
use crate::windows::everything::{
    EverythingError, EverythingSearchItem, EverythingSearchPage, REPLY,
};
use crate::winpath;
use crate::winpath::{file_name_of, parent_of};

verus! {

/// The bytes before the text of a query.
pub const HEADER: usize = 28;

/// The bytes before the table of a reply.
pub const LIST_HEADER: usize = 20;

/// The bytes of an entry in that table.
pub const ITEM_SIZE: usize = 8;

pub const REQ_NAME: u32 = 1;

pub const REQ_PATH: u32 = 2;

pub const REQ_FULL: u32 = 4;

pub const REQ_SIZE: u32 = 0x10;

pub const REQ_MODIFIED: u32 = 0x40;

pub const REQ_ATTRIBUTES: u32 = 0x100;

/// All fields that the file manager asks for.
pub const REQ_ALL: u32 = 0x157;

pub const FILE_ATTRIBUTE_DIRECTORY: u32 = 0x10;

// ---- the query ----

/// A query: seven numbers, then the text with a NUL behind it.
pub open spec fn query_bytes(
    window: u32,
    query: Seq<char>,
    offset: u32,
    max: u32,
    flags: u32,
    sort: u32,
) -> Seq<u8> {
    bytes::bytes32(window) + bytes::bytes32(REPLY as u32) + bytes::bytes32(0) + bytes::bytes32(
        offset,
    ) + bytes::bytes32(max) + bytes::bytes32(flags) + bytes::bytes32(sort) + bytes::unit_bytes(
        text::utf16_encoded(query).push(0),
    )
}

pub fn encode_query(window: u32, query: &str, offset: u32, max: u32, flags: u32, sort: u32) -> (b:
    Vec<u8>)
    ensures
        b@ == query_bytes(window, query@, offset, max, flags, sort),
{
    let mut b: Vec<u8> = Vec::new();
    push_u32(&mut b, window);
    push_u32(&mut b, REPLY as u32);
    push_u32(&mut b, 0);
    push_u32(&mut b, offset);
    push_u32(&mut b, max);
    push_u32(&mut b, flags);
    push_u32(&mut b, sort);
    let mut units = encode_text(query);
    units.push(0);
    push_unit_bytes(&mut b, units.as_slice());
    assert(b@ =~= query_bytes(window, query@, offset, max, flags, sort));
    b
}

// ---- the reply ----

/// A hit as a mathematical value.
pub struct Hit {
    pub path: Seq<u16>,
    pub name: Seq<u16>,
    pub parent: Seq<u16>,
    pub size: Option<u64>,
    pub modified: Option<u64>,
    pub is_directory: bool,
}

impl View for EverythingSearchItem {
    type V = Hit;

    open spec fn view(&self) -> Hit {
        Hit {
            path: self.path@,
            name: self.name@,
            parent: self.parent@,
            size: self.size,
            modified: self.modified,
            is_directory: self.is_directory,
        }
    }
}

pub open spec fn hits(items: Seq<EverythingSearchItem>) -> Seq<Hit> {
    Seq::new(items.len(), |i: int| items[i]@)
}

/// A field at a position: its value and where the next one starts, or why it cannot be read. A
/// field that was not asked for takes no room.
pub open spec fn wide_field(b: Seq<u8>, at: int, wanted: bool) -> Result<
    (Option<Seq<u16>>, int),
    Seq<char>,
> {
    if !wanted {
        Ok((None, at))
    } else if at + 4 > b.len() {
        Err("truncated u32"@)
    } else {
        let len = bytes::le32(b, at) as int;
        let end = at + 4 + (len + 1) * 2;
        if end > b.len() {
            Err("truncated string"@)
        } else if b[end - 2] != 0 || b[end - 1] != 0 {
            Err("unterminated string"@)
        } else {
            Ok((Some(bytes::units_in(b.subrange(at + 4, at + 4 + len * 2))), end))
        }
    }
}

pub open spec fn long_field(b: Seq<u8>, at: int, wanted: bool) -> Result<
    (Option<u64>, int),
    Seq<char>,
> {
    if !wanted {
        Ok((None, at))
    } else if at + 8 > b.len() {
        Err("truncated u64"@)
    } else {
        Ok((Some(bytes::le64(b, at)), at + 8))
    }
}

pub open spec fn short_field(b: Seq<u8>, at: int, wanted: bool) -> Result<
    (Option<u32>, int),
    Seq<char>,
> {
    if !wanted {
        Ok((None, at))
    } else if at + 4 > b.len() {
        Err("truncated u32"@)
    } else {
        Ok((Some(bytes::le32(b, at)), at + 4))
    }
}

/// The ticks of a hundred nanoseconds from 1601 to 1970.
pub const EPOCH_TICKS: u64 = 116_444_736_000_000_000;

/// A file time in nanoseconds from 1970; none before that.
pub open spec fn unix_nanos(ticks: u64) -> Option<u64> {
    if ticks < EPOCH_TICKS {
        None
    } else if (ticks - EPOCH_TICKS) * 100 > u64::MAX {
        Some(u64::MAX)
    } else {
        Some(((ticks - EPOCH_TICKS) * 100) as u64)
    }
}

pub fn filetime(ticks: u64) -> (nanos: Option<u64>)
    ensures
        nanos == unix_nanos(ticks),
{
    if ticks < EPOCH_TICKS {
        return None;
    }
    let since: u64 = ticks - EPOCH_TICKS;
    if since > 184_467_440_737_095_516 {
        Some(u64::MAX)
    } else {
        Some(since * 100)
    }
}

/// The name or the parent of a hit: as given, or taken from its path.
pub open spec fn hit_name(given: Option<Seq<u16>>, path: Seq<u16>) -> Seq<u16> {
    match (given, winpath::path_name(path)) {
        (Some(name), _) => name,
        (None, Some(name)) => name,
        (None, None) => Seq::empty(),
    }
}

pub open spec fn hit_parent(given: Option<Seq<u16>>, path: Seq<u16>) -> Seq<u16> {
    match (given, winpath::path_parent(path)) {
        (Some(parent), _) => parent,
        (None, Some(parent)) => parent,
        (None, None) => Seq::empty(),
    }
}

/// The texts of a hit: name, parent and full path, and where the numbers start.
pub struct HitTexts {
    pub name: Option<Seq<u16>>,
    pub parent: Option<Seq<u16>>,
    pub full: Option<Seq<u16>>,
    pub next: int,
}

pub open spec fn texts_at(b: Seq<u8>, at: int, flags: u32) -> Result<HitTexts, Seq<char>> {
    match wide_field(b, at, effects::has_bits(flags, REQ_NAME)) {
        Err(message) => Err(message),
        Ok((name, at)) => match wide_field(b, at, effects::has_bits(flags, REQ_PATH)) {
            Err(message) => Err(message),
            Ok((parent, at)) => match wide_field(b, at, effects::has_bits(flags, REQ_FULL)) {
                Err(message) => Err(message),
                Ok((full, at)) => Ok(HitTexts { name, parent, full, next: at }),
            },
        },
    }
}

/// The numbers of a hit: size, time and attributes.
pub struct HitNumbers {
    pub size: Option<u64>,
    pub ticks: Option<u64>,
    pub attributes: Option<u32>,
}

pub open spec fn numbers_at(b: Seq<u8>, at: int, flags: u32) -> Result<HitNumbers, Seq<char>> {
    match long_field(b, at, effects::has_bits(flags, REQ_SIZE)) {
        Err(message) => Err(message),
        Ok((size, at)) => match long_field(b, at, effects::has_bits(flags, REQ_MODIFIED)) {
            Err(message) => Err(message),
            Ok((ticks, at)) => match short_field(
                b,
                at,
                effects::has_bits(flags, REQ_ATTRIBUTES),
            ) {
                Err(message) => Err(message),
                Ok((attributes, _)) => Ok(HitNumbers { size, ticks, attributes }),
            },
        },
    }
}

/// The hit with these texts and numbers; it must have its full path.
pub open spec fn hit_of(texts: HitTexts, numbers: HitNumbers, item_flags: u32) -> Result<
    Hit,
    Seq<char>,
> {
    match texts.full {
        None => Err("missing full path"@),
        Some(path) => Ok(
            Hit {
                path,
                name: hit_name(texts.name, path),
                parent: hit_parent(texts.parent, path),
                size: numbers.size,
                modified: match numbers.ticks {
                    Some(ticks) => unix_nanos(ticks),
                    None => None,
                },
                is_directory: effects::has_bits(item_flags, 1) || match numbers.attributes {
                    Some(attributes) => effects::has_bits(attributes, FILE_ATTRIBUTE_DIRECTORY),
                    None => false,
                },
            },
        ),
    }
}

/// The hit whose fields start at a position.
pub open spec fn hit_at(b: Seq<u8>, at: int, flags: u32, item_flags: u32) -> Result<Hit, Seq<char>> {
    match texts_at(b, at, flags) {
        Err(message) => Err(message),
        Ok(texts) => match numbers_at(b, texts.next, flags) {
            Err(message) => Err(message),
            Ok(numbers) => hit_of(texts, numbers, item_flags),
        },
    }
}

/// The error of a reply that breaks the protocol.
pub open spec fn is_protocol(error: EverythingError, message: Seq<char>) -> bool {
    error matches EverythingError::Protocol(text) && text@ == message
}

fn protocol(message: &str) -> (error: EverythingError)
    ensures
        is_protocol(error, message@),
{
    EverythingError::Protocol(text_of(message))
}

pub open spec fn units_view(value: Option<Vec<u16>>) -> Option<Seq<u16>> {
    match value {
        Some(units) => Some(units@),
        None => None,
    }
}

fn read_wide(b: &[u8], at: usize, wanted: bool) -> (result: Result<
    (Option<Vec<u16>>, usize),
    EverythingError,
>)
    requires
        at <= b@.len(),
    ensures
        match (result, wide_field(b@, at as int, wanted)) {
            (Ok(read), Ok(field)) => units_view(read.0) == field.0 && read.1 == field.1 && read.1
                <= b@.len(),
            (Err(error), Err(message)) => is_protocol(error, message),
            _ => false,
        },
{
    if !wanted {
        return Ok((None, at));
    }
    let n: usize = b.len();
    if n - at < 4 {
        return Err(protocol("truncated u32"));
    }
    let len: u32 = read_u32(b, at);
    let room: u64 = (n - at - 4) as u64;
    if (len as u64 + 1) * 2 > room {
        return Err(protocol("truncated string"));
    }
    let start: usize = at + 4;
    let count: usize = len as usize;
    let end: usize = start + (count + 1) * 2;
    if b[end - 2] != 0 || b[end - 1] != 0 {
        return Err(protocol("unterminated string"));
    }
    let units = read_units(b, start, count);
    Ok((Some(units), end))
}

fn read_long(b: &[u8], at: usize, wanted: bool) -> (result: Result<
    (Option<u64>, usize),
    EverythingError,
>)
    requires
        at <= b@.len(),
    ensures
        match (result, long_field(b@, at as int, wanted)) {
            (Ok(read), Ok(field)) => read.0 == field.0 && read.1 == field.1 && read.1 <= b@.len(),
            (Err(error), Err(message)) => is_protocol(error, message),
            _ => false,
        },
{
    if !wanted {
        return Ok((None, at));
    }
    let n: usize = b.len();
    if n - at < 8 {
        return Err(protocol("truncated u64"));
    }
    Ok((Some(read_u64(b, at)), at + 8))
}

fn read_short(b: &[u8], at: usize, wanted: bool) -> (result: Result<
    (Option<u32>, usize),
    EverythingError,
>)
    requires
        at <= b@.len(),
    ensures
        match (result, short_field(b@, at as int, wanted)) {
            (Ok(read), Ok(field)) => read.0 == field.0 && read.1 == field.1 && read.1 <= b@.len(),
            (Err(error), Err(message)) => is_protocol(error, message),
            _ => false,
        },
{
    if !wanted {
        return Ok((None, at));
    }
    let n: usize = b.len();
    if n - at < 4 {
        return Err(protocol("truncated u32"));
    }
    Ok((Some(read_u32(b, at)), at + 4))
}

#[derive(Debug)]
struct ItemTexts {
    name: Option<Vec<u16>>,
    parent: Option<Vec<u16>>,
    full: Option<Vec<u16>>,
    next: usize,
}

fn read_texts(b: &[u8], at: usize, flags: u32) -> (result: Result<ItemTexts, EverythingError>)
    requires
        at <= b@.len(),
    ensures
        match (result, texts_at(b@, at as int, flags)) {
            (Ok(read), Ok(texts)) => units_view(read.name) == texts.name && units_view(read.parent)
                == texts.parent && units_view(read.full) == texts.full && read.next == texts.next
                && read.next <= b@.len(),
            (Err(error), Err(message)) => is_protocol(error, message),
            _ => false,
        },
{
    let (name, at1) = match read_wide(b, at, flags & REQ_NAME != 0) {
        Ok(read) => read,
        Err(error) => {
            return Err(error);
        },
    };
    let (parent, at2) = match read_wide(b, at1, flags & REQ_PATH != 0) {
        Ok(read) => read,
        Err(error) => {
            return Err(error);
        },
    };
    match read_wide(b, at2, flags & REQ_FULL != 0) {
        Ok((full, next)) => Ok(ItemTexts { name, parent, full, next }),
        Err(error) => Err(error),
    }
}

#[derive(Debug)]
struct ItemNumbers {
    size: Option<u64>,
    ticks: Option<u64>,
    attributes: Option<u32>,
}

fn read_numbers(b: &[u8], at: usize, flags: u32) -> (result: Result<ItemNumbers, EverythingError>)
    requires
        at <= b@.len(),
    ensures
        match (result, numbers_at(b@, at as int, flags)) {
            (Ok(read), Ok(numbers)) => read.size == numbers.size && read.ticks == numbers.ticks
                && read.attributes == numbers.attributes,
            (Err(error), Err(message)) => is_protocol(error, message),
            _ => false,
        },
{
    let (size, at1) = match read_long(b, at, flags & REQ_SIZE != 0) {
        Ok(read) => read,
        Err(error) => {
            return Err(error);
        },
    };
    let (ticks, at2) = match read_long(b, at1, flags & REQ_MODIFIED != 0) {
        Ok(read) => read,
        Err(error) => {
            return Err(error);
        },
    };
    match read_short(b, at2, flags & REQ_ATTRIBUTES != 0) {
        Ok((attributes, _)) => Ok(ItemNumbers { size, ticks, attributes }),
        Err(error) => Err(error),
    }
}

fn given_or_name(given: Option<Vec<u16>>, path: &[u16]) -> (name: Vec<u16>)
    ensures
        name@ == hit_name(units_view(given), path@),
{
    match given {
        Some(name) => name,
        None => match file_name_of(path) {
            Some(name) => name,
            None => {
                let name: Vec<u16> = Vec::new();
                assert(name@ =~= Seq::<u16>::empty());
                name
            },
        },
    }
}

fn given_or_parent(given: Option<Vec<u16>>, path: &[u16]) -> (parent: Vec<u16>)
    ensures
        parent@ == hit_parent(units_view(given), path@),
{
    match given {
        Some(parent) => parent,
        None => match parent_of(path) {
            Some(parent) => parent,
            None => {
                let parent: Vec<u16> = Vec::new();
                assert(parent@ =~= Seq::<u16>::empty());
                parent
            },
        },
    }
}

fn assemble(texts: ItemTexts, numbers: ItemNumbers, item_flags: u32, found: Ghost<HitTexts>) -> (
    result: Result<EverythingSearchItem, EverythingError>)
    requires
        units_view(texts.name) == found@.name,
        units_view(texts.parent) == found@.parent,
        units_view(texts.full) == found@.full,
    ensures
        match (
            result,
            hit_of(
                found@,
                HitNumbers {
                    size: numbers.size,
                    ticks: numbers.ticks,
                    attributes: numbers.attributes,
                },
                item_flags,
            ),
        ) {
            (Ok(item), Ok(hit)) => item@ == hit,
            (Err(error), Err(message)) => is_protocol(error, message),
            _ => false,
        },
{
    let path = match texts.full {
        Some(path) => path,
        None => {
            return Err(protocol("missing full path"));
        },
    };
    let modified = match numbers.ticks {
        Some(ticks) => filetime(ticks),
        None => None,
    };
    let by_attributes = match numbers.attributes {
        Some(attributes) => attributes & FILE_ATTRIBUTE_DIRECTORY != 0,
        None => false,
    };
    let name = given_or_name(texts.name, path.as_slice());
    let parent = given_or_parent(texts.parent, path.as_slice());
    Ok(
        EverythingSearchItem {
            path,
            name,
            parent,
            size: numbers.size,
            modified,
            is_directory: item_flags & 1 != 0 || by_attributes,
        },
    )
}

/// Reads the hit whose fields start at a position.
pub fn parse_item(b: &[u8], at: usize, flags: u32, item_flags: u32) -> (result: Result<
    EverythingSearchItem,
    EverythingError,
>)
    requires
        at <= b@.len(),
    ensures
        match (result, hit_at(b@, at as int, flags, item_flags)) {
            (Ok(item), Ok(hit)) => item@ == hit,
            (Err(error), Err(message)) => is_protocol(error, message),
            _ => false,
        },
{
    let texts = match read_texts(b, at, flags) {
        Ok(texts) => texts,
        Err(error) => {
            return Err(error);
        },
    };
    let numbers = match read_numbers(b, texts.next, flags) {
        Ok(numbers) => numbers,
        Err(error) => {
            return Err(error);
        },
    };
    assemble(texts, numbers, item_flags, Ghost(texts_at(b@, at as int, flags)->Ok_0))
}

/// The end of the table in a reply.
pub open spec fn table_end(b: Seq<u8>) -> int {
    LIST_HEADER + bytes::le32(b, 4) * ITEM_SIZE
}

/// The hit of the i-th entry in the table.
pub open spec fn entry_hit(b: Seq<u8>, i: int) -> Result<Hit, Seq<char>> {
    let at = LIST_HEADER + i * ITEM_SIZE;
    let data = bytes::le32(b, at + 4) as int;
    if data < table_end(b) || data > b.len() {
        Err("invalid item offset"@)
    } else {
        hit_at(b, data, bytes::le32(b, 12), bytes::le32(b, at))
    }
}

/// The hits of the first entries, or the error of the first entry that has one.
pub open spec fn first_hits(b: Seq<u8>, n: int) -> Result<Seq<Hit>, Seq<char>>
    decreases n,
{
    if n <= 0 {
        Ok(Seq::empty())
    } else {
        match (first_hits(b, n - 1), entry_hit(b, n - 1)) {
            (Err(message), _) => Err(message),
            (Ok(_), Err(message)) => Err(message),
            (Ok(before), Ok(hit)) => Ok(before.push(hit)),
        }
    }
}

/// The hits of a reply.
pub open spec fn reply_hits(b: Seq<u8>) -> Result<Seq<Hit>, Seq<char>> {
    if b.len() < LIST_HEADER {
        Err("truncated response header"@)
    } else if table_end(b) > b.len() {
        Err("truncated item table"@)
    } else {
        first_hits(b, bytes::le32(b, 4) as int)
    }
}

pub fn parse_results(b: &[u8]) -> (result: Result<EverythingSearchPage, EverythingError>)
    ensures
        match (result, reply_hits(b@)) {
            (Ok(page), Ok(found)) => page.total == bytes::le32(b@, 0) && page.offset == bytes::le32(
                b@,
                8,
            ) && hits(page.items@) == found,
            (Err(error), Err(message)) => is_protocol(error, message),
            _ => false,
        },
{
    let n: usize = b.len();
    if n < LIST_HEADER {
        return Err(protocol("truncated response header"));
    }
    let total: u32 = read_u32(b, 0);
    let count: u32 = read_u32(b, 4);
    let offset: u32 = read_u32(b, 8);
    let flags: u32 = read_u32(b, 12);
    if count as u64 * 8 > (n - LIST_HEADER) as u64 {
        return Err(protocol("truncated item table"));
    }
    let entries: usize = count as usize;
    let table: usize = LIST_HEADER + entries * 8;
    let mut items: Vec<EverythingSearchItem> = Vec::new();
    let mut i: usize = 0;
    assert(hits(items@) =~= Seq::empty());
    while i < entries
        invariant
            n == b@.len(),
            entries == bytes::le32(b@, 4),
            flags == bytes::le32(b@, 12),
            table == table_end(b@),
            table <= n,
            i <= entries,
            first_hits(b@, i as int) == Ok::<Seq<Hit>, Seq<char>>(hits(items@)),
            n >= LIST_HEADER,
            reply_hits(b@) == first_hits(b@, entries as int),
        decreases entries - i,
    {
        let at: usize = LIST_HEADER + i * 8;
        let item_flags: u32 = read_u32(b, at);
        let data: u32 = read_u32(b, at + 4);
        if (data as u64) < table as u64 || data as u64 > n as u64 {
            proof {
                assert(entry_hit(b@, i as int) == Err::<Hit, Seq<char>>("invalid item offset"@));
                lemma_stops(b@, i as int, entries as int);
            }
            return Err(protocol("invalid item offset"));
        }
        let parsed = parse_item(b, data as usize, flags, item_flags);
        match parsed {
            Ok(item) => {
                let ghost before = items@;
                let ghost hit = item@;
                items.push(item);
                assert(hits(items@) =~= hits(before).push(hit));
            },
            Err(error) => {
                proof {
                    lemma_stops(b@, i as int, entries as int);
                }
                return Err(error);
            },
        }
        i += 1;
    }
    Ok(EverythingSearchPage { total, offset, items })
}

proof fn lemma_stops(b: Seq<u8>, i: int, n: int)
    requires
        0 <= i < n,
        first_hits(b, i) is Ok,
        entry_hit(b, i) is Err,
    ensures
        first_hits(b, n) is Err,
        first_hits(b, n)->Err_0 == entry_hit(b, i)->Err_0,
    decreases n,
{
    if i < n - 1 {
        lemma_stops(b, i, n - 1);
    }
}

// ---- laws ----

/// The receiver of a query finds the numbers and the text in it that were sent.
pub proof fn law_query_keeps_its_parts(
    window: u32,
    query: Seq<char>,
    offset: u32,
    max: u32,
    flags: u32,
    sort: u32,
)
    ensures
        ({
            let b = query_bytes(window, query, offset, max, flags, sort);
            &&& bytes::le32(b, 0) == window
            &&& bytes::le32(b, 4) == REPLY
            &&& bytes::le32(b, 12) == offset
            &&& bytes::le32(b, 16) == max
            &&& bytes::le32(b, 20) == flags
            &&& bytes::le32(b, 24) == sort
            &&& bytes::units_in(b.subrange(HEADER as int, b.len() as int)) == text::utf16_encoded(
                query,
            ).push(0)
        }),
{
    let b = query_bytes(window, query, offset, max, flags, sort);
    let units = text::utf16_encoded(query).push(0);
    let p0 = bytes::bytes32(window);
    let p1 = p0 + bytes::bytes32(REPLY as u32);
    let p2 = p1 + bytes::bytes32(0);
    let p3 = p2 + bytes::bytes32(offset);
    let p4 = p3 + bytes::bytes32(max);
    let p5 = p4 + bytes::bytes32(flags);
    let p6 = p5 + bytes::bytes32(sort);
    let tail = bytes::unit_bytes(units);
    assert(b == p6 + tail);
    assert(p6.len() == 28 && b.subrange(0, 28) == p6 && b.subrange(28, b.len() as int) == tail) by {
        assert(b.subrange(0, 28) =~= p6);
        assert(b.subrange(28, b.len() as int) =~= tail);
    }
    lemma_last_number(b, p5, sort);
    lemma_last_number(b, p4, flags);
    lemma_last_number(b, p3, max);
    lemma_last_number(b, p2, offset);
    lemma_last_number(b, p1, 0);
    lemma_last_number(b, p0, REPLY as u32);
    assert(Seq::<u8>::empty() + p0 =~= p0);
    lemma_last_number(b, Seq::empty(), window);
    bytes::law_units_round_trip(units);
}

/// A buffer that begins with some bytes and a number.
proof fn lemma_last_number(b: Seq<u8>, before: Seq<u8>, value: u32)
    requires
        before.len() + 4 <= b.len(),
        b.subrange(0, before.len() + 4int) == before + bytes::bytes32(value),
    ensures
        bytes::le32(b, before.len() as int) == value,
        b.subrange(0, before.len() as int) == before,
{
    let after = b.subrange(before.len() + 4int, b.len() as int);
    bytes::lemma_le32(before, value, after);
    let head = b.subrange(0, before.len() + 4int);
    assert(before + bytes::bytes32(value) + after =~= b) by {
        assert(head + after =~= b);
    }
    assert(b.subrange(0, before.len() as int) =~= before) by {
        assert(b.subrange(0, before.len() as int) =~= head.subrange(0, before.len() as int));
        assert(head.subrange(0, before.len() as int) =~= before);
    }
}

/// A reply that can be read lists as many hits as it says.
pub proof fn law_reply_count(b: Seq<u8>)
    requires
        reply_hits(b) is Ok,
    ensures
        reply_hits(b)->Ok_0.len() == bytes::le32(b, 4),
{
    lemma_first_count(b, bytes::le32(b, 4) as int);
}

proof fn lemma_first_count(b: Seq<u8>, n: int)
    requires
        0 <= n,
        first_hits(b, n) is Ok,
    ensures
        first_hits(b, n)->Ok_0.len() == n,
    decreases n,
{
    if n > 0 {
        lemma_first_count(b, n - 1);
    }
}

// ---- laws of the hits ----

/// A text field as it is sent: its length, its units, and a NUL; nothing where it is not sent.
#[verifier::opaque]
pub open spec fn text_sent(value: Option<Seq<u16>>) -> Seq<u8> {
    match value {
        Some(units) => bytes::bytes32(units.len() as u32) + bytes::unit_bytes(units.push(0)),
        None => Seq::empty(),
    }
}

#[verifier::opaque]
pub open spec fn long_sent(value: Option<u64>) -> Seq<u8> {
    match value {
        Some(value) => bytes::bytes64(value),
        None => Seq::empty(),
    }
}

#[verifier::opaque]
pub open spec fn short_sent(value: Option<u32>) -> Seq<u8> {
    match value {
        Some(value) => bytes::bytes32(value),
        None => Seq::empty(),
    }
}

/// What Everything says of one hit: the fields that were asked for.
pub struct SentHit {
    pub name: Option<Seq<u16>>,
    pub parent: Option<Seq<u16>>,
    pub full: Option<Seq<u16>>,
    pub size: Option<u64>,
    pub ticks: Option<u64>,
    pub attributes: Option<u32>,
}

/// The fields of a hit one behind the other.
pub open spec fn hit_sent(hit: SentHit) -> Seq<u8> {
    text_sent(hit.name) + text_sent(hit.parent) + text_sent(hit.full) + long_sent(hit.size)
        + long_sent(hit.ticks) + short_sent(hit.attributes)
}

/// The hit has exactly the fields that the flags ask for, and no text is too long to be sent.
pub open spec fn answers_flags(hit: SentHit, flags: u32) -> bool {
    &&& hit.name is Some <==> flags & 1 != 0
    &&& hit.parent is Some <==> flags & 2 != 0
    &&& hit.full is Some <==> flags & 4 != 0
    &&& hit.size is Some <==> flags & 0x10 != 0
    &&& hit.ticks is Some <==> flags & 0x40 != 0
    &&& hit.attributes is Some <==> flags & 0x100 != 0
    &&& hit.name matches Some(units) ==> units.len() < 0x4000_0000
    &&& hit.parent matches Some(units) ==> units.len() < 0x4000_0000
    &&& hit.full matches Some(units) ==> units.len() < 0x4000_0000
}

/// The bytes stand at a position.
pub open spec fn stands_at(b: Seq<u8>, at: int, piece: Seq<u8>) -> bool {
    0 <= at && at + piece.len() <= b.len() && b.subrange(at, at + piece.len() as int) == piece
}

proof fn lemma_stands_split(b: Seq<u8>, at: int, left: Seq<u8>, right: Seq<u8>)
    requires
        stands_at(b, at, left + right),
    ensures
        stands_at(b, at, left),
        stands_at(b, at + left.len(), right),
{
    let whole = b.subrange(at, at + (left + right).len() as int);
    assert(b.subrange(at, at + left.len() as int) =~= whole.subrange(0, left.len() as int));
    assert((left + right).subrange(0, left.len() as int) =~= left);
    assert(b.subrange(at + left.len(), at + left.len() + right.len() as int) =~= whole.subrange(
        left.len() as int,
        whole.len() as int,
    ));
    assert((left + right).subrange(left.len() as int, whole.len() as int) =~= right);
}

proof fn lemma_text_sent(b: Seq<u8>, at: int, value: Option<Seq<u16>>)
    requires
        stands_at(b, at, text_sent(value)),
        value matches Some(units) ==> units.len() < 0x4000_0000,
    ensures
        wide_field(b, at, value is Some) == Ok::<(Option<Seq<u16>>, int), Seq<char>>(
            (value, at + text_sent(value).len()),
        ),
{
    reveal(text_sent);
    if let Some(units) = value {
        let count = bytes::bytes32(units.len() as u32);
        let ended = units.push(0);
        let body = bytes::unit_bytes(ended);
        lemma_stands_split(b, at, count, body);
        let head = b.subrange(0, at);
        let tail = b.subrange(at + 4, b.len() as int);
        assert(b =~= head + count + tail) by {
            assert(b.subrange(at, at + 4) == count);
            assert(head + b.subrange(at, at + 4) + tail =~= b);
        }
        bytes::lemma_le32(head, units.len() as u32, tail);
        let n = units.len() as int;
        let end = at + 4 + (n + 1) * 2;
        let window = b.subrange(at + 4, end);
        assert(window == body);
        assert(body[2 * n] == 0 && body[2 * n + 1] == 0) by {
            assert(ended[n] == 0);
            assert((2 * n) / 2 == n && (2 * n + 1) / 2 == n);
        }
        assert(b[end - 2] == window[2 * n] && b[end - 1] == window[2 * n + 1]);
        assert(b.subrange(at + 4, at + 4 + n * 2) =~= body.subrange(0, 2 * n));
        assert(body.subrange(0, 2 * n) =~= bytes::unit_bytes(units)) by {
            assert forall|k: int| 0 <= k < 2 * n implies body[k] == bytes::unit_bytes(units)[k] by {
                assert(ended[k / 2] == units[k / 2]);
            }
        }
        bytes::law_units_round_trip(units);
    }
}

proof fn lemma_long_sent(b: Seq<u8>, at: int, value: Option<u64>)
    requires
        stands_at(b, at, long_sent(value)),
    ensures
        long_field(b, at, value is Some) == Ok::<(Option<u64>, int), Seq<char>>(
            (value, at + long_sent(value).len()),
        ),
{
    reveal(long_sent);
    if let Some(number) = value {
        let head = b.subrange(0, at);
        let tail = b.subrange(at + 8, b.len() as int);
        assert(b.subrange(at, at + 8) == bytes::bytes64(number));
        assert(b =~= head + b.subrange(at, at + 8) + tail);
        bytes::lemma_le64(head, number, tail);
    }
}

proof fn lemma_short_sent(b: Seq<u8>, at: int, value: Option<u32>)
    requires
        stands_at(b, at, short_sent(value)),
    ensures
        short_field(b, at, value is Some) == Ok::<(Option<u32>, int), Seq<char>>(
            (value, at + short_sent(value).len()),
        ),
{
    reveal(short_sent);
    if let Some(number) = value {
        let head = b.subrange(0, at);
        let tail = b.subrange(at + 4, b.len() as int);
        assert(b.subrange(at, at + 4) == bytes::bytes32(number));
        assert(b =~= head + b.subrange(at, at + 4) + tail);
        bytes::lemma_le32(head, number, tail);
    }
}

proof fn lemma_hit_pieces(b: Seq<u8>, at: int, hit: SentHit)
    requires
        stands_at(b, at, hit_sent(hit)),
    ensures
        ({
            let p1 = at + text_sent(hit.name).len();
            let p2 = p1 + text_sent(hit.parent).len();
            let p3 = p2 + text_sent(hit.full).len();
            let p4 = p3 + long_sent(hit.size).len();
            let p5 = p4 + long_sent(hit.ticks).len();
            &&& stands_at(b, at, text_sent(hit.name))
            &&& stands_at(b, p1, text_sent(hit.parent))
            &&& stands_at(b, p2, text_sent(hit.full))
            &&& stands_at(b, p3, long_sent(hit.size))
            &&& stands_at(b, p4, long_sent(hit.ticks))
            &&& stands_at(b, p5, short_sent(hit.attributes))
        }),
{
    lemma_six_stand(
        b,
        at,
        text_sent(hit.name),
        text_sent(hit.parent),
        text_sent(hit.full),
        long_sent(hit.size),
        long_sent(hit.ticks),
        short_sent(hit.attributes),
    );
}

proof fn lemma_six_stand(
    b: Seq<u8>,
    at: int,
    one: Seq<u8>,
    two: Seq<u8>,
    three: Seq<u8>,
    four: Seq<u8>,
    five: Seq<u8>,
    six: Seq<u8>,
)
    requires
        stands_at(b, at, one + two + three + four + five + six),
    ensures
        stands_at(b, at, one),
        stands_at(b, at + one.len(), two),
        stands_at(b, at + one.len() + two.len(), three),
        stands_at(b, at + one.len() + two.len() + three.len(), four),
        stands_at(b, at + one.len() + two.len() + three.len() + four.len(), five),
        stands_at(b, at + one.len() + two.len() + three.len() + four.len() + five.len(), six),
{
    lemma_stands_split(b, at, one + two + three + four + five, six);
    lemma_stands_split(b, at, one + two + three + four, five);
    lemma_stands_split(b, at, one + two + three, four);
    lemma_stands_split(b, at, one + two, three);
    lemma_stands_split(b, at, one, two);
}

proof fn lemma_texts_chain(
    b: Seq<u8>,
    at: int,
    flags: u32,
    p1: int,
    p2: int,
    p3: int,
    name: Option<Seq<u16>>,
    parent: Option<Seq<u16>>,
    full: Option<Seq<u16>>,
)
    requires
        wide_field(b, at, flags & 1 != 0) == Ok::<(Option<Seq<u16>>, int), Seq<char>>((name, p1)),
        wide_field(b, p1, flags & 2 != 0) == Ok::<(Option<Seq<u16>>, int), Seq<char>>((parent, p2)),
        wide_field(b, p2, flags & 4 != 0) == Ok::<(Option<Seq<u16>>, int), Seq<char>>((full, p3)),
    ensures
        texts_at(b, at, flags) == Ok::<HitTexts, Seq<char>>(
            HitTexts { name, parent, full, next: p3 },
        ),
{
}

proof fn lemma_numbers_chain(
    b: Seq<u8>,
    at: int,
    flags: u32,
    p1: int,
    p2: int,
    p3: int,
    size: Option<u64>,
    ticks: Option<u64>,
    attributes: Option<u32>,
)
    requires
        long_field(b, at, flags & 0x10 != 0) == Ok::<(Option<u64>, int), Seq<char>>((size, p1)),
        long_field(b, p1, flags & 0x40 != 0) == Ok::<(Option<u64>, int), Seq<char>>((ticks, p2)),
        short_field(b, p2, flags & 0x100 != 0) == Ok::<(Option<u32>, int), Seq<char>>(
            (attributes, p3),
        ),
    ensures
        numbers_at(b, at, flags) == Ok::<HitNumbers, Seq<char>>(
            HitNumbers { size, ticks, attributes },
        ),
{
}

proof fn lemma_hit_texts(b: Seq<u8>, at: int, flags: u32, hit: SentHit) -> (next: int)
    requires
        stands_at(b, at, hit_sent(hit)),
        answers_flags(hit, flags),
    ensures
        texts_at(b, at, flags) == Ok::<HitTexts, Seq<char>>(
            HitTexts { name: hit.name, parent: hit.parent, full: hit.full, next },
        ),
        next == at + text_sent(hit.name).len() + text_sent(hit.parent).len() + text_sent(
            hit.full,
        ).len(),
{
    lemma_hit_pieces(b, at, hit);
    let p1 = at + text_sent(hit.name).len();
    let p2 = p1 + text_sent(hit.parent).len();
    let p3 = p2 + text_sent(hit.full).len();
    lemma_text_sent(b, at, hit.name);
    lemma_text_sent(b, p1, hit.parent);
    lemma_text_sent(b, p2, hit.full);
    lemma_texts_chain(b, at, flags, p1, p2, p3, hit.name, hit.parent, hit.full);
    p3
}

proof fn lemma_hit_sent(b: Seq<u8>, at: int, flags: u32, hit: SentHit)
    requires
        stands_at(b, at, hit_sent(hit)),
        answers_flags(hit, flags),
    ensures
        texts_at(b, at, flags) is Ok,
        ({
            let texts = texts_at(b, at, flags)->Ok_0;
            &&& texts.name == hit.name
            &&& texts.parent == hit.parent
            &&& texts.full == hit.full
            &&& numbers_at(b, texts.next, flags) == Ok::<HitNumbers, Seq<char>>(
                HitNumbers { size: hit.size, ticks: hit.ticks, attributes: hit.attributes },
            )
        }),
{
    let p3 = lemma_hit_texts(b, at, flags, hit);
    assert(numbers_at(b, p3, flags) == Ok::<HitNumbers, Seq<char>>(
        HitNumbers { size: hit.size, ticks: hit.ticks, attributes: hit.attributes },
    )) by {
        lemma_hit_pieces(b, at, hit);
        let p4 = p3 + long_sent(hit.size).len();
        let p5 = p4 + long_sent(hit.ticks).len();
        let p6 = p5 + short_sent(hit.attributes).len();
        lemma_long_sent(b, p3, hit.size);
        lemma_long_sent(b, p4, hit.ticks);
        lemma_short_sent(b, p5, hit.attributes);
        lemma_numbers_chain(b, p3, flags, p4, p5, p6, hit.size, hit.ticks, hit.attributes);
    }
}

/// An item says of a hit what was sent of it: its path, its name and its parent, which are taken
/// from the path where they were not sent, its size and its time; and it is a folder exactly where
/// the lowest flag of the hit or the folder bit of its attributes says so.
pub open spec fn tells(item: EverythingSearchItem, hit: SentHit, item_flags: u32) -> bool {
    &&& item.is_directory <==> item_flags & 1 != 0 || (hit.attributes matches Some(attributes)
        && attributes & 0x10 != 0)
    &&& hit.full == Some(item.path@)
    &&& match hit.name {
        Some(name) => item.name@ == name,
        None => match winpath::path_name(item.path@) {
            Some(name) => item.name@ == name,
            None => item.name@.len() == 0,
        },
    }
    &&& match hit.parent {
        Some(parent) => item.parent@ == parent,
        None => match winpath::path_parent(item.path@) {
            Some(parent) => item.parent@ == parent,
            None => item.parent@.len() == 0,
        },
    }
    &&& item.size == hit.size
    &&& match hit.ticks {
        None => item.modified is None,
        Some(ticks) => match item.modified {
            None => ticks < 116_444_736_000_000_000,
            Some(nanos) => ticks >= 116_444_736_000_000_000 && (nanos == (ticks
                - 116_444_736_000_000_000) * 100 || (nanos == u64::MAX && (ticks
                - 116_444_736_000_000_000) * 100 > u64::MAX)),
        },
    }
}

/// A hit is read as it was sent, whichever fields were asked for with its full path: a folder as a
/// folder and a file as a file, with all that was said of it. Without its full path it is refused.
pub proof fn law_a_sent_hit_is_read(
    b: &[u8],
    at: usize,
    flags: u32,
    item_flags: u32,
    hit: SentHit,
    result: Result<EverythingSearchItem, EverythingError>,
)
    requires
        stands_at(b@, at as int, hit_sent(hit)),
        answers_flags(hit, flags),
        call_ensures(parse_item, (b, at, flags, item_flags), result),
    ensures
        result is Ok <==> hit.full is Some,
        result matches Ok(item) ==> tells(item, hit, item_flags),
{
    lemma_hit_sent(b@, at as int, flags, hit);
    if let Ok(item) = result {
        let found = hit_at(b@, at as int, flags, item_flags)->Ok_0;
        assert(item@ == found);
        assert(item@.path == item.path@ && item@.name == item.name@ && item@.parent
            == item.parent@);
        assert(Seq::<u16>::empty().len() == 0);
    }
}

proof fn lemma_first_hits_at(b: Seq<u8>, n: int, i: int)
    requires
        0 <= i < n,
        first_hits(b, n) is Ok,
    ensures
        entry_hit(b, i) is Ok,
        first_hits(b, n)->Ok_0.len() == n,
        first_hits(b, n)->Ok_0[i] == entry_hit(b, i)->Ok_0,
    decreases n,
{
    lemma_first_count(b, n);
    lemma_first_count(b, n - 1);
    if i < n - 1 {
        lemma_first_hits_at(b, n - 1, i);
    }
}

/// The page of a reply has one item for each entry of its table, in that order, and each tells of
/// the hit to which its entry points; the page says how many hits there are and where it begins.
pub proof fn law_a_page_tells_of_its_hits(
    b: &[u8],
    page: EverythingSearchPage,
    i: int,
    hit: SentHit,
)
    requires
        call_ensures(parse_results, (b,), Ok(page)),
        0 <= i < bytes::le32(b@, 4),
        stands_at(b@, bytes::le32(b@, 20 + 8 * i + 4) as int, hit_sent(hit)),
        answers_flags(hit, bytes::le32(b@, 12)),
    ensures
        page.total == bytes::le32(b@, 0),
        page.offset == bytes::le32(b@, 8),
        page.items@.len() == bytes::le32(b@, 4),
        tells(page.items@[i], hit, bytes::le32(b@, 20 + 8 * i)),
{
    let n = bytes::le32(b@, 4) as int;
    lemma_first_hits_at(b@, n, i);
    assert(hits(page.items@).len() == n);
    let item = page.items@[i];
    assert(hits(page.items@)[i] == item@);
    let at = bytes::le32(b@, 20 + 8 * i + 4) as int;
    let item_flags = bytes::le32(b@, 20 + 8 * i);
    lemma_hit_sent(b@, at, bytes::le32(b@, 12), hit);
    assert(item@ == hit_at(b@, at, bytes::le32(b@, 12), item_flags)->Ok_0);
    assert(item@.path == item.path@ && item@.name == item.name@ && item@.parent == item.parent@);
    assert(Seq::<u16>::empty().len() == 0);
}

/// File times count hundreds of nanoseconds from 1601: what lies before 1970 has no time, and from
/// there on later ticks are never earlier.
pub proof fn law_file_times_count_on(
    early: u64,
    late: u64,
    early_time: Option<u64>,
    late_time: Option<u64>,
)
    requires
        early <= late,
        call_ensures(filetime, (early,), early_time),
        call_ensures(filetime, (late,), late_time),
    ensures
        early_time is None <==> early < 116_444_736_000_000_000,
        early_time matches Some(a) ==> (late_time matches Some(b) && a <= b),
        early_time is Some && late_time->0 < u64::MAX ==> late_time->0 - early_time->0 == (late
            - early) * 100,
{
}

/// A reply whose table points to whole hits with their full paths is read.
pub proof fn law_a_whole_reply_is_read(
    b: &[u8],
    sent: Seq<SentHit>,
    result: Result<EverythingSearchPage, EverythingError>,
)
    requires
        call_ensures(parse_results, (b,), result),
        b@.len() >= 20,
        sent.len() == bytes::le32(b@, 4),
        20 + 8 * sent.len() <= b@.len(),
        forall|i: int|
            #![trigger sent[i]]
            0 <= i < sent.len() ==> {
                let at = bytes::le32(b@, 20 + 8 * i + 4) as int;
                at >= 20 + 8 * sent.len() && stands_at(b@, at, hit_sent(sent[i])) && answers_flags(
                    sent[i],
                    bytes::le32(b@, 12),
                ) && sent[i].full is Some
            },
    ensures
        result matches Ok(page) && page.items@.len() == sent.len() && forall|i: int|
            #![trigger sent[i]]
            0 <= i < sent.len() ==> tells(page.items@[i], sent[i], bytes::le32(b@, 20 + 8 * i)),
{
    lemma_all_hits(b@, sent, sent.len() as int);
    let page = result->Ok_0;
    assert(result == Ok::<EverythingSearchPage, EverythingError>(page));
    lemma_first_count(b@, sent.len() as int);
    assert(hits(page.items@).len() == page.items@.len());
    assert forall|i: int| #![trigger sent[i]] 0 <= i < sent.len() implies tells(
        page.items@[i],
        sent[i],
        bytes::le32(b@, 20 + 8 * i),
    ) by {
        law_a_page_tells_of_its_hits(b, page, i, sent[i]);
    }
}

proof fn lemma_all_hits(b: Seq<u8>, sent: Seq<SentHit>, n: int)
    requires
        0 <= n <= sent.len(),
        sent.len() == bytes::le32(b, 4),
        forall|i: int|
            #![trigger sent[i]]
            0 <= i < sent.len() ==> {
                let at = bytes::le32(b, 20 + 8 * i + 4) as int;
                at >= 20 + 8 * sent.len() && stands_at(b, at, hit_sent(sent[i])) && answers_flags(
                    sent[i],
                    bytes::le32(b, 12),
                ) && sent[i].full is Some
            },
    ensures
        first_hits(b, n) is Ok,
    decreases n,
{
    if n > 0 {
        lemma_all_hits(b, sent, n - 1);
        let hit = sent[n - 1];
        let at = bytes::le32(b, 20 + 8 * (n - 1) + 4) as int;
        lemma_hit_sent(b, at, bytes::le32(b, 12), hit);
        assert(LIST_HEADER + (n - 1) * ITEM_SIZE == 20 + 8 * (n - 1));
        assert(entry_hit(b, n - 1) is Ok);
    }
}

/// A query holds the window that waits for the reply, from which hit on and how many are asked for,
/// what is wanted of each and in which order, and behind them the text, marked at its end.
pub proof fn law_a_query_is_laid_out(
    window: u32,
    query: &str,
    offset: u32,
    max: u32,
    flags: u32,
    sort: u32,
    b: Vec<u8>,
)
    requires
        call_ensures(encode_query, (window, query, offset, max, flags, sort), b),
    ensures
        b@.len() >= 28,
        bytes::le32(b@, 0) == window,
        bytes::le32(b@, 12) == offset,
        bytes::le32(b@, 16) == max,
        bytes::le32(b@, 20) == flags,
        bytes::le32(b@, 24) == sort,
        bytes::units_in(b@.subrange(28, b@.len() as int)) == text::utf16_encoded(query@).push(0),
{
    let units = text::utf16_encoded(query@).push(0);
    let tail = bytes::unit_bytes(units);
    let none = Seq::<u8>::empty();
    let p1 = bytes::bytes32(window);
    let p2 = p1 + bytes::bytes32(REPLY as u32) + bytes::bytes32(0);
    let p3 = p2 + bytes::bytes32(offset);
    let p4 = p3 + bytes::bytes32(max);
    let p5 = p4 + bytes::bytes32(flags);
    let p6 = p5 + bytes::bytes32(sort);
    assert(p1.len() == 4 && p2.len() == 12 && p3.len() == 16 && p4.len() == 20 && p5.len() == 24
        && p6.len() == 28);
    assert(b@ == p6 + tail);
    assert(b@.subrange(28, b@.len() as int) =~= tail);
    bytes::law_units_round_trip(units);
    lemma_number_inside(b@, none, window);
    lemma_number_inside(b@, p2, offset);
    lemma_number_inside(b@, p3, max);
    lemma_number_inside(b@, p4, flags);
    lemma_number_inside(b@, p5, sort);
}

proof fn lemma_number_inside(b: Seq<u8>, before: Seq<u8>, value: u32)
    requires
        before.len() + 4 <= b.len(),
        b.subrange(0, before.len() as int + 4) =~= before + bytes::bytes32(value),
    ensures
        bytes::le32(b, before.len() as int) == value,
{
    let n = before.len() as int;
    let after = b.subrange(n + 4, b.len() as int);
    assert(b =~= b.subrange(0, n + 4) + after);
    bytes::lemma_le32(before, value, after);
}

} // verus!
