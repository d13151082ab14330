//! The values that the file manager and its helper process exchange, as bytes.
//!
//! Reading is stated as what stands at a position of a buffer: the value and the position behind
//! it, or the fault that is found there.
use vstd::prelude::*;

use crate::bytes;
use crate::bytes::{push_u32, push_u64, push_unit_bytes};
use crate::errors;
use crate::errors::{ErrorKind, IoError};

verus! {

/// The longest text, in UTF-16 units.
pub const MAX_HELPER_UTF16_UNITS: usize = 32767;

/// A fault in a buffer.
pub struct Fault {
    pub kind: ErrorKind,
    pub message: Seq<char>,
}

pub open spec fn invalid(message: Seq<char>) -> Fault {
    Fault { kind: ErrorKind::InvalidData, message }
}

pub open spec fn short(message: Seq<char>) -> Fault {
    Fault { kind: ErrorKind::UnexpectedEof, message }
}

/// The error reports the fault.
pub open spec fn is_fault(error: IoError, fault: Fault) -> bool {
    errors::fails_with(error, fault.kind, fault.message)
}

// ---- reading ----

pub open spec fn byte_at(b: Seq<u8>, at: int) -> Result<(u8, int), Fault> {
    if at < b.len() {
        Ok((b[at], at + 1))
    } else {
        Err(short("truncated byte"@))
    }
}

pub open spec fn u32_at(b: Seq<u8>, at: int) -> Result<(u32, int), Fault> {
    if at + 4 <= b.len() {
        Ok((bytes::le32(b, at), at + 4))
    } else {
        Err(short("truncated length"@))
    }
}

pub open spec fn u64_at(b: Seq<u8>, at: int) -> Result<(u64, int), Fault> {
    if at + 8 <= b.len() {
        Ok((bytes::le64(b, at), at + 8))
    } else {
        Err(short("truncated number"@))
    }
}

/// A text: the number of its units, then the units.
pub open spec fn units_at(b: Seq<u8>, at: int) -> Result<(Seq<u16>, int), Fault> {
    match u32_at(b, at) {
        Err(fault) => Err(fault),
        Ok((count, at)) => {
            let end = at + 2 * count;
            if count > MAX_HELPER_UTF16_UNITS {
                Err(invalid("UTF-16 value too long"@))
            } else if end > b.len() {
                Err(short("truncated UTF-16 data"@))
            } else {
                Ok((bytes::units_in(b.subrange(at, end)), end))
            }
        },
    }
}

/// A text that may be missing: a mark, then the text.
pub open spec fn optional_units_at(b: Seq<u8>, at: int) -> Result<(Option<Seq<u16>>, int), Fault> {
    match byte_at(b, at) {
        Err(fault) => Err(fault),
        Ok((mark, at)) => if mark == 0 {
            Ok((None, at))
        } else {
            match units_at(b, at) {
                Err(fault) => Err(fault),
                Ok((units, at)) => Ok((Some(units), at)),
            }
        },
    }
}

pub open spec fn optional_u64_at(b: Seq<u8>, at: int) -> Result<(Option<u64>, int), Fault> {
    match byte_at(b, at) {
        Err(fault) => Err(fault),
        Ok((mark, at)) => if mark == 0 {
            Ok((None, at))
        } else {
            match u64_at(b, at) {
                Err(fault) => Err(fault),
                Ok((value, at)) => Ok((Some(value), at)),
            }
        },
    }
}

/// A point of time: whole seconds from the beginning of 1970, which are negative before it, and
/// the nanoseconds that follow them.
#[derive(Debug, Clone, Copy, PartialEq, Eq, Structural)]
pub struct Timestamp {
    pub seconds: i64,
    pub nanos: u32,
}

/// The time can be a file time: ticks of a hundred nanoseconds from 1601, in 63 bits.
pub open spec fn is_file_time(seconds: int, nanos: u32) -> bool {
    seconds * 10_000_000 + nanos / 100 + 116_444_736_000_000_000 <= i64::MAX
}

/// A time that arrives as it was sent: none before 1970 does.
pub open spec fn valid_time(time: Option<Timestamp>) -> bool {
    time matches Some(time) ==> 0 <= time.seconds && time.nanos < 1_000_000_000 && is_file_time(
        time.seconds as int,
        time.nanos,
    )
}

pub open spec fn time_at(b: Seq<u8>, at: int) -> Result<(Option<Timestamp>, int), Fault> {
    match byte_at(b, at) {
        Err(fault) => Err(fault),
        Ok((mark, at)) => if mark == 0 {
            Ok((None, at))
        } else {
            match u64_at(b, at) {
                Err(fault) => Err(fault),
                Ok((seconds, at)) => match u32_at(b, at) {
                    Err(fault) => Err(fault),
                    Ok((nanos, at)) => if nanos >= 1_000_000_000 {
                        Err(invalid("invalid nanoseconds"@))
                    } else if !is_file_time(seconds as int, nanos) {
                        Err(invalid("time out of range"@))
                    } else {
                        Ok((Some(Timestamp { seconds: seconds as i64, nanos }), at))
                    },
                },
            }
        },
    }
}

pub fn read_byte(b: &[u8], at: usize) -> (result: Result<(u8, usize), IoError>)
    requires
        at <= b@.len(),
    ensures
        match (result, byte_at(b@, at as int)) {
            (Ok(read), Ok(found)) => read.0 == found.0 && read.1 == found.1 && read.1 <= b@.len(),
            (Err(error), Err(fault)) => is_fault(error, fault),
            _ => false,
        },
{
    let n: usize = b.len();
    if at < n {
        Ok((b[at], at + 1))
    } else {
        Err(IoError::new(ErrorKind::UnexpectedEof, "truncated byte"))
    }
}

pub fn read_u32(b: &[u8], at: usize) -> (result: Result<(u32, usize), IoError>)
    requires
        at <= b@.len(),
    ensures
        match (result, u32_at(b@, at as int)) {
            (Ok(read), Ok(found)) => read.0 == found.0 && read.1 == found.1 && read.1 <= b@.len(),
            (Err(error), Err(fault)) => is_fault(error, fault),
            _ => false,
        },
{
    let n: usize = b.len();
    if n - at >= 4 {
        Ok((bytes::read_u32(b, at), at + 4))
    } else {
        Err(IoError::new(ErrorKind::UnexpectedEof, "truncated length"))
    }
}

pub fn read_u64(b: &[u8], at: usize) -> (result: Result<(u64, usize), IoError>)
    requires
        at <= b@.len(),
    ensures
        match (result, u64_at(b@, at as int)) {
            (Ok(read), Ok(found)) => read.0 == found.0 && read.1 == found.1 && read.1 <= b@.len(),
            (Err(error), Err(fault)) => is_fault(error, fault),
            _ => false,
        },
{
    let n: usize = b.len();
    if n - at >= 8 {
        Ok((bytes::read_u64(b, at), at + 8))
    } else {
        Err(IoError::new(ErrorKind::UnexpectedEof, "truncated number"))
    }
}

pub fn read_units_at(b: &[u8], at: usize) -> (result: Result<(Vec<u16>, usize), IoError>)
    requires
        at <= b@.len(),
    ensures
        match (result, units_at(b@, at as int)) {
            (Ok(read), Ok(found)) => read.0@ == found.0 && read.1 == found.1 && read.1 <= b@.len(),
            (Err(error), Err(fault)) => is_fault(error, fault),
            _ => false,
        },
{
    let (count, start) = match read_u32(b, at) {
        Ok(read) => read,
        Err(error) => {
            return Err(error);
        },
    };
    if count > 32767 {
        return Err(IoError::new(ErrorKind::InvalidData, "UTF-16 value too long"));
    }
    let n: usize = b.len();
    let count: usize = count as usize;
    if n - start < 2 * count {
        return Err(IoError::new(ErrorKind::UnexpectedEof, "truncated UTF-16 data"));
    }
    Ok((bytes::read_units(b, start, count), start + 2 * count))
}

pub open spec fn units_view(value: Option<Vec<u16>>) -> Option<Seq<u16>> {
    match value {
        Some(units) => Some(units@),
        None => None,
    }
}

pub fn read_optional_units(b: &[u8], at: usize) -> (result: Result<
    (Option<Vec<u16>>, usize),
    IoError,
>)
    requires
        at <= b@.len(),
    ensures
        match (result, optional_units_at(b@, at as int)) {
            (Ok(read), Ok(found)) => units_view(read.0) == found.0 && read.1 == found.1 && read.1
                <= b@.len(),
            (Err(error), Err(fault)) => is_fault(error, fault),
            _ => false,
        },
{
    let (mark, at) = match read_byte(b, at) {
        Ok(read) => read,
        Err(error) => {
            return Err(error);
        },
    };
    if mark == 0 {
        return Ok((None, at));
    }
    match read_units_at(b, at) {
        Ok((units, at)) => Ok((Some(units), at)),
        Err(error) => Err(error),
    }
}

pub fn read_optional_u64(b: &[u8], at: usize) -> (result: Result<(Option<u64>, usize), IoError>)
    requires
        at <= b@.len(),
    ensures
        match (result, optional_u64_at(b@, at as int)) {
            (Ok(read), Ok(found)) => read.0 == found.0 && read.1 == found.1 && read.1 <= b@.len(),
            (Err(error), Err(fault)) => is_fault(error, fault),
            _ => false,
        },
{
    let (mark, at) = match read_byte(b, at) {
        Ok(read) => read,
        Err(error) => {
            return Err(error);
        },
    };
    if mark == 0 {
        return Ok((None, at));
    }
    match read_u64(b, at) {
        Ok((value, at)) => Ok((Some(value), at)),
        Err(error) => Err(error),
    }
}

fn fits_file_time(seconds: u64, nanos: u32) -> (fits: bool)
    ensures
        fits == is_file_time(seconds as int, nanos),
{
    let ticks: u128 = (seconds as u128) * 10_000_000 + (nanos / 100) as u128;
    ticks + 116_444_736_000_000_000 <= 0x7fff_ffff_ffff_ffff
}

pub fn read_system_time(b: &[u8], at: usize) -> (result: Result<
    (Option<Timestamp>, usize),
    IoError,
>)
    requires
        at <= b@.len(),
    ensures
        match (result, time_at(b@, at as int)) {
            (Ok(read), Ok(found)) => read.0 == found.0 && read.1 == found.1 && read.1 <= b@.len(),
            (Err(error), Err(fault)) => is_fault(error, fault),
            _ => false,
        },
{
    let (mark, at) = match read_byte(b, at) {
        Ok(read) => read,
        Err(error) => {
            return Err(error);
        },
    };
    if mark == 0 {
        return Ok((None, at));
    }
    let (seconds, at) = match read_u64(b, at) {
        Ok(read) => read,
        Err(error) => {
            return Err(error);
        },
    };
    let (nanos, at) = match read_u32(b, at) {
        Ok(read) => read,
        Err(error) => {
            return Err(error);
        },
    };
    if nanos >= 1_000_000_000 {
        return Err(IoError::new(ErrorKind::InvalidData, "invalid nanoseconds"));
    }
    if !fits_file_time(seconds, nanos) {
        return Err(IoError::new(ErrorKind::InvalidData, "time out of range"));
    }
    Ok((Some(Timestamp { seconds: seconds as i64, nanos }), at))
}

// ---- writing ----

pub open spec fn flag_byte(value: bool) -> u8 {
    if value {
        1
    } else {
        0
    }
}

/// The bytes of a text.
pub open spec fn units_out(units: Seq<u16>) -> Seq<u8> {
    bytes::bytes32(units.len() as u32) + bytes::unit_bytes(units)
}

/// The bytes of a text that may be missing.
pub open spec fn optional_units_out(units: Option<Seq<u16>>) -> Seq<u8> {
    match units {
        Some(units) => seq![1u8] + units_out(units),
        None => seq![0u8],
    }
}

pub open spec fn optional_u64_out(value: Option<u64>) -> Seq<u8> {
    match value {
        Some(value) => seq![1u8] + bytes::bytes64(value),
        None => seq![0u8],
    }
}

/// The bytes of a time. One before 1970 is left out.
pub open spec fn time_out(time: Option<Timestamp>) -> Seq<u8> {
    match time {
        Some(time) => if time.seconds >= 0 {
            seq![1u8] + bytes::bytes64(time.seconds as u64) + bytes::bytes32(time.nanos)
        } else {
            seq![0u8]
        },
        None => seq![0u8],
    }
}

/// The text is short enough to be sent.
pub open spec fn sendable(units: Seq<u16>) -> bool {
    units.len() <= MAX_HELPER_UTF16_UNITS
}

pub open spec fn optional_sendable(units: Option<Seq<u16>>) -> bool {
    units matches Some(units) ==> sendable(units)
}

pub open spec fn too_long() -> Fault {
    invalid("helper item too long"@)
}

pub fn push_flag(b: &mut Vec<u8>, value: bool)
    ensures
        final(b)@ == old(b)@ + seq![flag_byte(value)],
{
    if value {
        b.push(1);
    } else {
        b.push(0);
    }
    assert(b@ =~= old(b)@ + seq![flag_byte(value)]);
}

pub fn write_units(b: &mut Vec<u8>, units: &[u16]) -> (result: Result<(), IoError>)
    ensures
        match result {
            Ok(_) => sendable(units@) && final(b)@ == old(b)@ + units_out(units@),
            Err(error) => !sendable(units@) && is_fault(error, too_long()) && final(b)@ == old(
                b,
            )@,
        },
{
    let n: usize = units.len();
    if n > MAX_HELPER_UTF16_UNITS {
        return Err(IoError::new(ErrorKind::InvalidData, "helper item too long"));
    }
    push_u32(b, n as u32);
    push_unit_bytes(b, units);
    assert(b@ =~= old(b)@ + units_out(units@));
    Ok(())
}

pub open spec fn slice_view(value: Option<&[u16]>) -> Option<Seq<u16>> {
    match value {
        Some(units) => Some(units@),
        None => None,
    }
}

pub fn write_optional_units(b: &mut Vec<u8>, units: Option<&[u16]>) -> (result: Result<(), IoError>)
    ensures
        match result {
            Ok(_) => optional_sendable(slice_view(units)) && final(b)@ == old(b)@
                + optional_units_out(slice_view(units)),
            Err(error) => !optional_sendable(slice_view(units)) && is_fault(error, too_long()),
        },
{
    match units {
        Some(units) => {
            b.push(1);
            match write_units(b, units) {
                Ok(_) => {
                    assert(b@ =~= old(b)@ + (seq![1u8] + units_out(units@)));
                    Ok(())
                },
                Err(error) => Err(error),
            }
        },
        None => {
            b.push(0);
            assert(b@ =~= old(b)@ + seq![0u8]);
            Ok(())
        },
    }
}

pub fn write_optional_u64(b: &mut Vec<u8>, value: Option<u64>)
    ensures
        final(b)@ == old(b)@ + optional_u64_out(value),
{
    match value {
        Some(value) => {
            b.push(1);
            push_u64(b, value);
            assert(b@ =~= old(b)@ + (seq![1u8] + bytes::bytes64(value)));
        },
        None => {
            b.push(0);
            assert(b@ =~= old(b)@ + seq![0u8]);
        },
    }
}

pub fn write_system_time(b: &mut Vec<u8>, time: Option<Timestamp>)
    ensures
        final(b)@ == old(b)@ + time_out(time),
{
    match time {
        Some(time) if time.seconds >= 0 => {
            b.push(1);
            push_u64(b, time.seconds as u64);
            push_u32(b, time.nanos);
            assert(b@ =~= old(b)@ + time_out(Some(time)));
        },
        _ => {
            b.push(0);
            assert(b@ =~= old(b)@ + seq![0u8]);
        },
    }
}

// ---- what is written is read ----

/// A piece of a buffer.
pub open spec fn holds(b: Seq<u8>, at: int, piece: Seq<u8>) -> bool {
    0 <= at && at + piece.len() <= b.len() && b.subrange(at, at + piece.len() as int) == piece
}

pub proof fn lemma_whole(b: Seq<u8>)
    ensures
        holds(b, 0, b),
{
    assert(b.subrange(0, b.len() as int) =~= b);
}

pub proof fn lemma_split(b: Seq<u8>, at: int, first: Seq<u8>, second: Seq<u8>)
    requires
        holds(b, at, first + second),
    ensures
        holds(b, at, first),
        holds(b, at + first.len(), second),
{
    let both = first + second;
    let piece = b.subrange(at, at + both.len() as int);
    assert(b.subrange(at, at + first.len() as int) =~= piece.subrange(0, first.len() as int));
    assert(piece.subrange(0, first.len() as int) =~= first);
    assert(b.subrange(at + first.len(), at + first.len() + second.len()) =~= piece.subrange(
        first.len() as int,
        both.len() as int,
    ));
    assert(piece.subrange(first.len() as int, both.len() as int) =~= second);
}

pub proof fn lemma_byte_at(b: Seq<u8>, at: int, value: u8)
    requires
        holds(b, at, seq![value]),
    ensures
        byte_at(b, at) == Ok::<(u8, int), Fault>((value, at + 1)),
{
    assert(b.subrange(at, at + 1)[0] == b[at]);
}

pub proof fn lemma_u32_at(b: Seq<u8>, at: int, value: u32)
    requires
        holds(b, at, bytes::bytes32(value)),
    ensures
        u32_at(b, at) == Ok::<(u32, int), Fault>((value, at + 4)),
{
    let before = b.subrange(0, at);
    let after = b.subrange(at + 4, b.len() as int);
    assert(bytes::bytes32(value).len() == 4);
    assert(before + bytes::bytes32(value) + after =~= b) by {
        assert(b.subrange(at, at + 4) == bytes::bytes32(value));
        assert(before + b.subrange(at, at + 4) + after =~= b);
    }
    bytes::lemma_le32(before, value, after);
}

pub proof fn lemma_u64_at(b: Seq<u8>, at: int, value: u64)
    requires
        holds(b, at, bytes::bytes64(value)),
    ensures
        u64_at(b, at) == Ok::<(u64, int), Fault>((value, at + 8)),
{
    let before = b.subrange(0, at);
    let after = b.subrange(at + 8, b.len() as int);
    assert(bytes::bytes64(value).len() == 8);
    assert(before + bytes::bytes64(value) + after =~= b) by {
        assert(b.subrange(at, at + 8) == bytes::bytes64(value));
        assert(before + b.subrange(at, at + 8) + after =~= b);
    }
    bytes::lemma_le64(before, value, after);
}

pub proof fn lemma_units_at(b: Seq<u8>, at: int, units: Seq<u16>)
    requires
        holds(b, at, units_out(units)),
        sendable(units),
    ensures
        units_at(b, at) == Ok::<(Seq<u16>, int), Fault>((units, at + units_out(units).len())),
{
    let count = units.len() as u32;
    assert(bytes::bytes32(count).len() == 4);
    lemma_split(b, at, bytes::bytes32(count), bytes::unit_bytes(units));
    lemma_u32_at(b, at, count);
    bytes::law_units_round_trip(units);
}

pub proof fn lemma_optional_units_at(b: Seq<u8>, at: int, units: Option<Seq<u16>>)
    requires
        holds(b, at, optional_units_out(units)),
        optional_sendable(units),
    ensures
        optional_units_at(b, at) == Ok::<(Option<Seq<u16>>, int), Fault>(
            (units, at + optional_units_out(units).len()),
        ),
{
    match units {
        Some(units) => {
            lemma_split(b, at, seq![1u8], units_out(units));
            lemma_byte_at(b, at, 1);
            lemma_units_at(b, at + 1, units);
        },
        None => {
            lemma_byte_at(b, at, 0);
        },
    }
}

pub proof fn lemma_optional_u64_at(b: Seq<u8>, at: int, value: Option<u64>)
    requires
        holds(b, at, optional_u64_out(value)),
    ensures
        optional_u64_at(b, at) == Ok::<(Option<u64>, int), Fault>(
            (value, at + optional_u64_out(value).len()),
        ),
{
    match value {
        Some(value) => {
            lemma_split(b, at, seq![1u8], bytes::bytes64(value));
            lemma_byte_at(b, at, 1);
            lemma_u64_at(b, at + 1, value);
            assert(bytes::bytes64(value).len() == 8);
        },
        None => {
            lemma_byte_at(b, at, 0);
        },
    }
}

pub proof fn lemma_time_at(b: Seq<u8>, at: int, time: Option<Timestamp>)
    requires
        holds(b, at, time_out(time)),
        valid_time(time),
    ensures
        time_at(b, at) == Ok::<(Option<Timestamp>, int), Fault>((time, at + time_out(time).len())),
{
    match time {
        Some(time) => {
            let seconds = bytes::bytes64(time.seconds as u64);
            assert(seconds.len() == 8);
            assert(bytes::bytes32(time.nanos).len() == 4);
            lemma_split(b, at, seq![1u8] + seconds, bytes::bytes32(time.nanos));
            lemma_split(b, at, seq![1u8], seconds);
            lemma_byte_at(b, at, 1);
            lemma_u64_at(b, at + 1, time.seconds as u64);
            lemma_u32_at(b, at + 9, time.nanos);
        },
        None => {
            lemma_byte_at(b, at, 0);
        },
    }
}

// ---- the beginning of a list ----

/// How a list of entries begins: with their number, that of the skipped ones, and a mark.
pub open spec fn head_out(count: u32, skipped: u64, mark: u8) -> Seq<u8> {
    bytes::bytes32(count) + bytes::bytes64(skipped) + seq![mark]
}

pub fn write_head(count: u32, skipped: u64, mark: u8) -> (b: Vec<u8>)
    ensures
        b@ == head_out(count, skipped, mark),
        b@.len() == 13,
{
    let mut b: Vec<u8> = Vec::new();
    push_u32(&mut b, count);
    push_u64(&mut b, skipped);
    b.push(mark);
    assert(b@ =~= head_out(count, skipped, mark));
    assert(bytes::bytes32(count).len() == 4);
    assert(bytes::bytes64(skipped).len() == 8);
    b
}

pub proof fn lemma_head(b: Seq<u8>, count: u32, skipped: u64, mark: u8)
    requires
        holds(b, 0, head_out(count, skipped, mark)),
    ensures
        head_out(count, skipped, mark).len() == 13,
        u32_at(b, 0) == Ok::<(u32, int), Fault>((count, 4)),
        u64_at(b, 4) == Ok::<(u64, int), Fault>((skipped, 12)),
        byte_at(b, 12) == Ok::<(u8, int), Fault>((mark, 13)),
{
    let first = bytes::bytes32(count);
    let second = bytes::bytes64(skipped);
    assert(first.len() == 4);
    assert(second.len() == 8);
    lemma_split(b, 0, first + second, seq![mark]);
    lemma_split(b, 0, first, second);
    lemma_u32_at(b, 0, count);
    lemma_u64_at(b, 4, skipped);
    lemma_byte_at(b, 12, mark);
}

// ---- lists ----

/// The first `count` values of a list that begins at a position.
pub open spec fn list_at<T>(
    read: spec_fn(Seq<u8>, int) -> Result<(T, int), Fault>,
    b: Seq<u8>,
    at: int,
    count: nat,
) -> Result<(Seq<T>, int), Fault>
    decreases count,
{
    if count == 0 {
        Ok((Seq::empty(), at))
    } else {
        match list_at(read, b, at, (count - 1) as nat) {
            Err(fault) => Err(fault),
            Ok((values, at)) => match read(b, at) {
                Err(fault) => Err(fault),
                Ok((value, at)) => Ok((values.push(value), at)),
            },
        }
    }
}

/// The bytes of the values of a list, one behind the other.
pub open spec fn list_out<T>(write: spec_fn(T) -> Seq<u8>, values: Seq<T>) -> Seq<u8>
    decreases values.len(),
{
    if values.len() == 0 {
        Seq::empty()
    } else {
        list_out(write, values.drop_last()) + write(values.last())
    }
}

/// What keeps a list from being sent: the first of its values that cannot be, or with which the
/// list passes the limit.
pub open spec fn list_fault<T>(
    write: spec_fn(T) -> Seq<u8>,
    fits: spec_fn(T) -> bool,
    start: nat,
    limit: nat,
    values: Seq<T>,
) -> Option<Fault>
    decreases values.len(),
{
    if values.len() == 0 {
        None
    } else {
        match list_fault(write, fits, start, limit, values.drop_last()) {
            Some(fault) => Some(fault),
            None => if !fits(values.last()) {
                Some(too_long())
            } else if start + list_out(write, values).len() > limit {
                Some(invalid("helper result too large"@))
            } else {
                None
            },
        }
    }
}

pub proof fn lemma_list_stays_faulty<T>(
    read: spec_fn(Seq<u8>, int) -> Result<(T, int), Fault>,
    b: Seq<u8>,
    at: int,
    some: nat,
    all: nat,
)
    requires
        some <= all,
        list_at(read, b, at, some) is Err,
    ensures
        list_at(read, b, at, all) == list_at(read, b, at, some),
    decreases all,
{
    if some < all {
        lemma_list_stays_faulty(read, b, at, some, (all - 1) as nat);
    }
}

pub proof fn lemma_list_fault_stays<T>(
    write: spec_fn(T) -> Seq<u8>,
    fits: spec_fn(T) -> bool,
    start: nat,
    limit: nat,
    values: Seq<T>,
    some: int,
)
    requires
        0 <= some <= values.len(),
        list_fault(write, fits, start, limit, values.take(some)) is Some,
    ensures
        list_fault(write, fits, start, limit, values) == list_fault(
            write,
            fits,
            start,
            limit,
            values.take(some),
        ),
    decreases values.len(),
{
    if some < values.len() {
        assert(values.drop_last().take(some) =~= values.take(some));
        lemma_list_fault_stays(write, fits, start, limit, values.drop_last(), some);
    } else {
        assert(values.take(some) =~= values);
    }
}

pub proof fn lemma_list_fits<T>(
    write: spec_fn(T) -> Seq<u8>,
    fits: spec_fn(T) -> bool,
    start: nat,
    limit: nat,
    values: Seq<T>,
    i: int,
)
    requires
        list_fault(write, fits, start, limit, values) is None,
        0 <= i < values.len(),
    ensures
        fits(values[i]),
    decreases values.len(),
{
    if i < values.len() - 1 {
        lemma_list_fits(write, fits, start, limit, values.drop_last(), i);
        assert(values.drop_last()[i] == values[i]);
    }
}

/// Values that are read one by one as they were written are so in a list.
pub proof fn lemma_list_at<T>(
    read: spec_fn(Seq<u8>, int) -> Result<(T, int), Fault>,
    write: spec_fn(T) -> Seq<u8>,
    b: Seq<u8>,
    at: int,
    values: Seq<T>,
)
    requires
        holds(b, at, list_out(write, values)),
        forall|i: int, p: int|
            #![trigger holds(b, p, write(values[i]))]
            0 <= i < values.len() && holds(b, p, write(values[i])) ==> read(b, p) == Ok::<
                (T, int),
                Fault,
            >((values[i], p + write(values[i]).len())),
    ensures
        list_at(read, b, at, values.len()) == Ok::<(Seq<T>, int), Fault>(
            (values, at + list_out(write, values).len()),
        ),
    decreases values.len(),
{
    if values.len() > 0 {
        let before = values.drop_last();
        let n = values.len() - 1;
        lemma_split(b, at, list_out(write, before), write(values.last()));
        assert forall|i: int, p: int|
            #![trigger holds(b, p, write(before[i]))]
            0 <= i < before.len() && holds(b, p, write(before[i])) implies read(b, p) == Ok::<
            (T, int),
            Fault,
        >((before[i], p + write(before[i]).len())) by {
            assert(holds(b, p, write(values[i])));
        }
        lemma_list_at(read, write, b, at, before);
        assert(holds(b, at + list_out(write, before).len(), write(values[n])));
        assert(before.push(values.last()) =~= values);
    } else {
        assert(values =~= Seq::empty());
    }
}

/// A list whose values all fit, and that as a whole stays within the limit, has no fault.
pub proof fn lemma_list_no_fault<T>(
    write: spec_fn(T) -> Seq<u8>,
    fits: spec_fn(T) -> bool,
    start: nat,
    limit: nat,
    values: Seq<T>,
)
    requires
        forall|i: int| 0 <= i < values.len() ==> fits(#[trigger] values[i]),
        start + list_out(write, values).len() <= limit,
    ensures
        list_fault(write, fits, start, limit, values) is None,
    decreases values.len(),
{
    if values.len() > 0 {
        let before = values.drop_last();
        assert forall|i: int| 0 <= i < before.len() implies fits(#[trigger] before[i]) by {
            assert(before[i] == values[i]);
        }
        lemma_list_no_fault(write, fits, start, limit, before);
        assert(fits(values[values.len() - 1]));
    }
}

// ---- what is read does not depend on what follows ----

/// A value that is read from the beginning of a buffer is read from the whole buffer too, and
/// ends within that beginning.
pub open spec fn extends<T>(
    read: spec_fn(Seq<u8>, int) -> Result<(T, int), Fault>,
    c: Seq<u8>,
    n: int,
    at: int,
) -> bool {
    read(c.take(n), at) matches Ok((value, end)) ==> read(c, at) == Ok::<(T, int), Fault>(
        (value, end),
    ) && at <= end <= n
}

pub proof fn lemma_numbers_extend(c: Seq<u8>, n: int, at: int)
    requires
        0 <= at,
        0 <= n <= c.len(),
    ensures
        byte_at(c.take(n), at) matches Ok((value, end)) ==> byte_at(c, at) == Ok::<
            (u8, int),
            Fault,
        >((value, end)) && at <= end <= n,
        u32_at(c.take(n), at) matches Ok((value, end)) ==> u32_at(c, at) == Ok::<
            (u32, int),
            Fault,
        >((value, end)) && at <= end <= n,
        u64_at(c.take(n), at) matches Ok((value, end)) ==> u64_at(c, at) == Ok::<
            (u64, int),
            Fault,
        >((value, end)) && at <= end <= n,
{
}

pub proof fn lemma_units_extend(c: Seq<u8>, n: int, at: int)
    requires
        0 <= at,
        0 <= n <= c.len(),
    ensures
        units_at(c.take(n), at) matches Ok((value, end)) ==> units_at(c, at) == Ok::<
            (Seq<u16>, int),
            Fault,
        >((value, end)) && at <= end <= n,
{
    lemma_numbers_extend(c, n, at);
    if let Ok((value, end)) = units_at(c.take(n), at) {
        assert(c.take(n).subrange(at + 4, end) =~= c.subrange(at + 4, end));
    }
}

pub proof fn lemma_optionals_extend(c: Seq<u8>, n: int, at: int)
    requires
        0 <= at,
        0 <= n <= c.len(),
    ensures
        optional_u64_at(c.take(n), at) matches Ok((value, end)) ==> optional_u64_at(c, at) == Ok::<
            (Option<u64>, int),
            Fault,
        >((value, end)) && at <= end <= n,
        time_at(c.take(n), at) matches Ok((value, end)) ==> time_at(c, at) == Ok::<
            (Option<Timestamp>, int),
            Fault,
        >((value, end)) && at <= end <= n,
{
    lemma_numbers_extend(c, n, at);
    lemma_numbers_extend(c, n, at + 1);
    lemma_numbers_extend(c, n, at + 9);
}

pub proof fn lemma_list_extends<T>(
    read: spec_fn(Seq<u8>, int) -> Result<(T, int), Fault>,
    c: Seq<u8>,
    n: int,
    at: int,
    count: nat,
)
    requires
        0 <= at <= n,
        0 <= n <= c.len(),
        forall|p: int| 0 <= p ==> #[trigger] extends(read, c, n, p),
    ensures
        list_at(read, c.take(n), at, count) matches Ok((values, end)) ==> list_at(
            read,
            c,
            at,
            count,
        ) == Ok::<(Seq<T>, int), Fault>((values, end)) && at <= end <= n,
    decreases count,
{
    if count > 0 {
        lemma_list_extends(read, c, n, at, (count - 1) as nat);
        if let Ok((values, p)) = list_at(read, c.take(n), at, (count - 1) as nat) {
            assert(extends(read, c, n, p));
        }
    }
}

/// Units that are written are read back, and reading goes on behind them; so are units that may be
/// missing.
pub proof fn law_sent_units_arrive(
    b: &mut Vec<u8>,
    units: &[u16],
    sent: &[u8],
    read: Result<(Vec<u16>, usize), IoError>,
)
    requires
        old(b)@.len() <= usize::MAX,
        call_ensures(write_units, (b, units), Ok(())),
        sent@ == final(b)@,
        sent@.len() <= usize::MAX,
        call_ensures(read_units_at, (sent, old(b)@.len() as usize), read),
    ensures
        read is Ok && read->Ok_0.0@ == units@ && read->Ok_0.1 == sent@.len(),
        forall|i: int| 0 <= i < old(b)@.len() ==> sent@[i] == #[trigger] old(b)@[i],
{
    let at = old(b)@.len() as int;
    let out = units_out(units@);
    assert(sent@.subrange(at, at + out.len()) =~= out);
    lemma_units_at(sent@, at, units@);
}

/// The same holds of units that may be missing.
pub proof fn law_missing_units_stay_missing(
    b: &mut Vec<u8>,
    units: Option<&[u16]>,
    sent: &[u8],
    read: Result<(Option<Vec<u16>>, usize), IoError>,
)
    requires
        call_ensures(write_optional_units, (b, units), Ok(())),
        sent@ == final(b)@,
        sent@.len() <= usize::MAX,
        call_ensures(read_optional_units, (sent, old(b)@.len() as usize), read),
    ensures
        read is Ok && read->Ok_0.1 == sent@.len(),
        read->Ok_0.0 is Some <==> units is Some,
        units is Some ==> read->Ok_0.0->0@ == units->0@,
{
    let at = old(b)@.len() as int;
    let out = optional_units_out(slice_view(units));
    assert(sent@.subrange(at, at + out.len()) =~= out);
    lemma_optional_units_at(sent@, at, slice_view(units));
}

/// A number that may be missing is read back, and so is a time.
pub proof fn law_sent_numbers_arrive(
    b: &mut Vec<u8>,
    value: Option<u64>,
    sent: &[u8],
    read: Result<(Option<u64>, usize), IoError>,
)
    requires
        call_ensures(write_optional_u64, (b, value), ()),
        sent@ == final(b)@,
        sent@.len() <= usize::MAX,
        call_ensures(read_optional_u64, (sent, old(b)@.len() as usize), read),
    ensures
        read is Ok && read->Ok_0.1 == sent@.len(),
        read->Ok_0.0 == value,
{
    let at = old(b)@.len() as int;
    let out = optional_u64_out(value);
    assert(sent@.subrange(at, at + out.len()) =~= out);
    lemma_optional_u64_at(sent@, at, value);
}

/// A time that is written is read back, to the nanosecond.
pub proof fn law_sent_times_arrive(
    b: &mut Vec<u8>,
    time: Option<Timestamp>,
    sent: &[u8],
    read: Result<(Option<Timestamp>, usize), IoError>,
)
    requires
        valid_time(time),
        call_ensures(write_system_time, (b, time), ()),
        sent@ == final(b)@,
        sent@.len() <= usize::MAX,
        call_ensures(read_system_time, (sent, old(b)@.len() as usize), read),
    ensures
        read is Ok && read->Ok_0.1 == sent@.len(),
        read->Ok_0.0 is Some <==> time is Some,
        time is Some ==> read->Ok_0.0->0.seconds == time->0.seconds && read->Ok_0.0->0.nanos
            == time->0.nanos,
{
    let at = old(b)@.len() as int;
    let out = time_out(time);
    assert(sent@.subrange(at, at + out.len()) =~= out);
    lemma_time_at(sent@, at, time);
}

} // verus!
