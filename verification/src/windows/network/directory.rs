//! The entries of a folder, sent in batches while the folder is read.
use vstd::prelude::*;

use crate::bytes;
use crate::bytes::push_u32;
use crate::errors;
use crate::errors::{ErrorKind, IoError};
use crate::network;
use crate::network::is_unc_path;
use crate::windows::network::codec;
use crate::windows::network::codec::{read_byte, read_u32, read_u64, write_head, Fault};
use crate::windows::network::entry;
use crate::windows::network::entry::{
    present, read_entry, write_entry, EntryData, FileEntry, FolderSizeState,
};
use crate::windows::network::helper;

verus! {

pub const MAX_BATCH_ITEMS: usize = 256;

pub const MAX_BATCH_BYTES: usize = 1_048_576;

pub const POLL_INTERVAL_MS: u64 = 10;

pub const BATCH_INTERVAL_MS: u64 = 100;

// ---- batches ----

/// What is sent of an entry in a batch: its number, and the entry.
pub struct NumberedData {
    pub id: u32,
    pub entry: EntryData,
}

pub open spec fn numbered_data(entries: Seq<FileEntry>) -> Seq<NumberedData> {
    Seq::new(entries.len(), |i: int| NumberedData { id: entries[i].id.0, entry: entries[i].data() })
}

pub open spec fn numbered_out(value: NumberedData) -> Seq<u8> {
    bytes::bytes32(value.id) + entry::entry_out(value.entry)
}

pub open spec fn numbered_at(b: Seq<u8>, at: int) -> Result<(NumberedData, int), Fault> {
    match codec::u32_at(b, at) {
        Err(fault) => Err(fault),
        Ok((id, at)) => match entry::entry_at(b, at) {
            Err(fault) => Err(fault),
            Ok((entry, at)) => Ok((NumberedData { id, entry }, at)),
        },
    }
}

pub open spec fn numbered_reader() -> spec_fn(Seq<u8>, int) -> Result<(NumberedData, int), Fault> {
    |b: Seq<u8>, at: int| numbered_at(b, at)
}

pub open spec fn numbered_writer() -> spec_fn(NumberedData) -> Seq<u8> {
    |value: NumberedData| numbered_out(value)
}

pub open spec fn numbered_fits() -> spec_fn(NumberedData) -> bool {
    |value: NumberedData| entry::entry_sendable(value.entry)
}

/// What a batch holds: entries, the number of those that could not be read, and whether it is
/// the last one.
pub struct BatchData {
    pub entries: Seq<NumberedData>,
    pub skipped: nat,
    pub done: bool,
}

pub open spec fn batch_out(batch: BatchData) -> Seq<u8> {
    codec::head_out(
        batch.entries.len() as u32,
        batch.skipped as u64,
        codec::flag_byte(batch.done),
    ) + codec::list_out(numbered_writer(), batch.entries)
}

/// What keeps a batch from being sent: the last one is empty, and none is too large.
pub open spec fn batch_fault(batch: BatchData) -> Option<Fault> {
    if batch.done && (batch.entries.len() > 0 || batch.skipped != 0) {
        Some(codec::invalid("invalid completion batch"@))
    } else if batch.entries.len() > MAX_BATCH_ITEMS {
        Some(codec::invalid("too many helper items"@))
    } else {
        codec::list_fault(
            numbered_writer(),
            numbered_fits(),
            13,
            MAX_BATCH_BYTES as nat,
            batch.entries,
        )
    }
}

fn write_numbered(b: &mut Vec<u8>, entry: &FileEntry) -> (result: Result<(), IoError>)
    ensures
        match result {
            Ok(_) => entry::entry_sendable(entry.data()) && final(b)@ == old(b)@ + numbered_out(
                NumberedData { id: entry.id.0, entry: entry.data() },
            ),
            Err(error) => !entry::entry_sendable(entry.data()) && codec::is_fault(
                error,
                codec::too_long(),
            ),
        },
{
    push_u32(b, entry.id.0);
    match write_entry(b, entry) {
        Ok(_) => {
            assert(b@ =~= old(b)@ + numbered_out(
                NumberedData { id: entry.id.0, entry: entry.data() },
            ));
            Ok(())
        },
        Err(error) => Err(error),
    }
}

pub fn encode_batch(entries: &[FileEntry], skipped: usize, done: bool) -> (result: Result<
    Vec<u8>,
    IoError,
>)
    ensures
        ({
            let batch = BatchData {
                entries: numbered_data(entries@),
                skipped: skipped as nat,
                done,
            };
            match result {
                Ok(b) => batch_fault(batch) is None && b@ == batch_out(batch),
                Err(error) => batch_fault(batch) matches Some(fault) && codec::is_fault(
                    error,
                    fault,
                ),
            }
        }),
{
    let n: usize = entries.len();
    if done && (n > 0 || skipped != 0) {
        return Err(IoError::new(ErrorKind::InvalidData, "invalid completion batch"));
    }
    if n > MAX_BATCH_ITEMS {
        return Err(IoError::new(ErrorKind::InvalidData, "too many helper items"));
    }
    let mark: u8 = if done {
        1
    } else {
        0
    };
    let mut b = write_head(n as u32, skipped as u64, mark);
    let ghost head = b@;
    let ghost data = numbered_data(entries@);
    assert(data.take(0) =~= Seq::empty());
    assert(b@ =~= head + codec::list_out(numbered_writer(), data.take(0)));
    let mut i: usize = 0;
    while i < n
        invariant
            i <= n,
            n == entries@.len(),
            n <= MAX_BATCH_ITEMS,
            data == numbered_data(entries@),
            head.len() == 13,
            !(done && (n > 0 || skipped != 0)),
            b@ == head + codec::list_out(numbered_writer(), data.take(i as int)),
            codec::list_fault(
                numbered_writer(),
                numbered_fits(),
                13,
                MAX_BATCH_BYTES as nat,
                data.take(i as int),
            ) is None,
        decreases n - i,
    {
        let written = write_numbered(&mut b, &entries[i]);
        let ghost next = data.take(i + 1);
        assert(next.drop_last() =~= data.take(i as int));
        assert(next.last() == data[i as int]);
        if let Err(error) = written {
            proof {
                codec::lemma_list_fault_stays(
                    numbered_writer(),
                    numbered_fits(),
                    13,
                    MAX_BATCH_BYTES as nat,
                    data,
                    i + 1,
                );
            }
            return Err(error);
        }
        i += 1;
        assert(b@ =~= head + codec::list_out(numbered_writer(), data.take(i as int)));
        if b.len() > MAX_BATCH_BYTES {
            proof {
                codec::lemma_list_fault_stays(
                    numbered_writer(),
                    numbered_fits(),
                    13,
                    MAX_BATCH_BYTES as nat,
                    data,
                    i as int,
                );
            }
            return Err(IoError::new(ErrorKind::InvalidData, "helper result too large"));
        }
    }
    assert(data.take(n as int) =~= data);
    Ok(b)
}

// ---- errors as frames ----

/// An error that the helper process reports: a number of the system, or a kind.
#[derive(Debug, Clone, Copy, PartialEq, Eq, Structural)]
pub enum RemoteError {
    Code(i32),
    Kind(ErrorKind),
}

/// What an error is reported as. Kinds that are not told apart are reported as the last one.
pub open spec fn reported(error: IoError) -> RemoteError {
    match error.code {
        Some(code) => RemoteError::Code(code),
        None => RemoteError::Kind(
            match error.kind {
                ErrorKind::NotFound => ErrorKind::NotFound,
                ErrorKind::PermissionDenied => ErrorKind::PermissionDenied,
                ErrorKind::Interrupted => ErrorKind::Interrupted,
                ErrorKind::TimedOut => ErrorKind::TimedOut,
                ErrorKind::InvalidData => ErrorKind::InvalidData,
                _ => ErrorKind::Other,
            },
        ),
    }
}

pub open spec fn kind_tag(kind: ErrorKind) -> u8 {
    match kind {
        ErrorKind::NotFound => 1,
        ErrorKind::PermissionDenied => 2,
        ErrorKind::Interrupted => 3,
        ErrorKind::TimedOut => 4,
        ErrorKind::InvalidData => 5,
        _ => 6,
    }
}

pub open spec fn error_out(error: RemoteError) -> Seq<u8> {
    codec::head_out(0, 0, 2) + match error {
        RemoteError::Code(code) => seq![0u8] + bytes::bytes32(code as u32),
        RemoteError::Kind(kind) => seq![kind_tag(kind)],
    }
}

pub fn encode_error(error: &IoError) -> (b: Vec<u8>)
    ensures
        b@ == error_out(reported(*error)),
{
    let mut b = write_head(0, 0, 2);
    match error.code {
        Some(code) => {
            b.push(0);
            push_u32(&mut b, #[verifier::truncate] (code as u32));
        },
        None => {
            let tag: u8 = match error.kind {
                ErrorKind::NotFound => 1,
                ErrorKind::PermissionDenied => 2,
                ErrorKind::Interrupted => 3,
                ErrorKind::TimedOut => 4,
                ErrorKind::InvalidData => 5,
                _ => 6,
            };
            b.push(tag);
        },
    }
    assert(b@ =~= error_out(reported(*error)));
    b
}

/// A frame that reports an error and is not well formed.
pub open spec fn broken() -> Fault {
    codec::invalid(errors::kind_text(ErrorKind::InvalidData))
}

pub open spec fn error_at(b: Seq<u8>, at: int) -> Result<(RemoteError, int), Fault> {
    match codec::byte_at(b, at) {
        Err(fault) => Err(fault),
        Ok((tag, at)) => if tag == 0 {
            match codec::u32_at(b, at) {
                Err(fault) => Err(fault),
                Ok((code, at)) => if code == 0 {
                    Err(broken())
                } else {
                    Ok((RemoteError::Code(code as i32), at))
                },
            }
        } else if tag == 1 {
            Ok((RemoteError::Kind(ErrorKind::NotFound), at))
        } else if tag == 2 {
            Ok((RemoteError::Kind(ErrorKind::PermissionDenied), at))
        } else if tag == 3 {
            Ok((RemoteError::Kind(ErrorKind::Interrupted), at))
        } else if tag == 4 {
            Ok((RemoteError::Kind(ErrorKind::TimedOut), at))
        } else if tag == 5 {
            Ok((RemoteError::Kind(ErrorKind::InvalidData), at))
        } else if tag == 6 {
            Ok((RemoteError::Kind(ErrorKind::Other), at))
        } else {
            Err(broken())
        },
    }
}

fn broken_error() -> (error: IoError)
    ensures
        codec::is_fault(error, broken()),
{
    IoError::from_kind(ErrorKind::InvalidData)
}

/// The error that a frame reports from a position on.
pub fn decode_error(b: &[u8], at: usize) -> (result: Result<RemoteError, IoError>)
    requires
        at <= b@.len(),
    ensures
        match (result, helper::alone(error_at(b@, at as int), b@, broken().message)) {
            (Ok(error), Ok(found)) => error == found,
            (Err(error), Err(fault)) => codec::is_fault(error, fault),
            _ => false,
        },
{
    let (tag, at) = match read_byte(b, at) {
        Ok(read) => read,
        Err(error) => {
            return Err(error);
        },
    };
    let mut end: usize = at;
    let error = match tag {
        0 => {
            let (code, next) = match read_u32(b, at) {
                Ok(read) => read,
                Err(error) => {
                    return Err(error);
                },
            };
            if code == 0 {
                return Err(broken_error());
            }
            end = next;
            RemoteError::Code(#[verifier::truncate] (code as i32))
        },
        1 => RemoteError::Kind(ErrorKind::NotFound),
        2 => RemoteError::Kind(ErrorKind::PermissionDenied),
        3 => RemoteError::Kind(ErrorKind::Interrupted),
        4 => RemoteError::Kind(ErrorKind::TimedOut),
        5 => RemoteError::Kind(ErrorKind::InvalidData),
        6 => RemoteError::Kind(ErrorKind::Other),
        _ => {
            return Err(broken_error());
        },
    };
    if end != b.len() {
        return Err(broken_error());
    }
    Ok(error)
}

// ---- reading a frame ----

/// Why a frame holds no batch.
pub enum FrameFault {
    Invalid(Fault),
    Remote(RemoteError),
}

/// How a frame begins: the number of entries, of skipped ones, and whether it is the last one.
pub open spec fn frame_head(b: Seq<u8>) -> Result<((u32, u64, bool), int), FrameFault> {
    match codec::u32_at(b, 0) {
        Err(fault) => Err(FrameFault::Invalid(fault)),
        Ok((count, at)) => if count > MAX_BATCH_ITEMS {
            Err(FrameFault::Invalid(codec::invalid("too many helper items"@)))
        } else {
            match codec::u64_at(b, at) {
                Err(fault) => Err(FrameFault::Invalid(fault)),
                Ok((skipped, at)) => if skipped > usize::MAX {
                    Err(FrameFault::Invalid(codec::invalid("invalid skipped count"@)))
                } else {
                    match codec::byte_at(b, at) {
                        Err(fault) => Err(FrameFault::Invalid(fault)),
                        Ok((mark, at)) => if mark == 0 {
                            Ok(((count, skipped, false), at))
                        } else if mark == 1 && count == 0 && skipped == 0 {
                            Ok(((count, skipped, true), at))
                        } else if mark == 2 && count == 0 && skipped == 0 {
                            match helper::alone(error_at(b, at), b, broken().message) {
                                Ok(error) => Err(FrameFault::Remote(error)),
                                Err(fault) => Err(FrameFault::Invalid(fault)),
                            }
                        } else {
                            Err(FrameFault::Invalid(codec::invalid("invalid completion batch"@)))
                        },
                    }
                },
            }
        },
    }
}

/// The batch that a frame holds.
pub open spec fn batch_in(b: Seq<u8>) -> Result<BatchData, FrameFault> {
    if b.len() > MAX_BATCH_BYTES {
        Err(FrameFault::Invalid(codec::invalid("helper result too large"@)))
    } else {
        match frame_head(b) {
            Err(fault) => Err(fault),
            Ok(((count, skipped, done), at)) => match codec::list_at(
                numbered_reader(),
                b,
                at,
                count as nat,
            ) {
                Err(fault) => Err(FrameFault::Invalid(fault)),
                Ok((entries, at)) => if at == b.len() {
                    Ok(BatchData { entries, skipped: skipped as nat, done })
                } else {
                    Err(FrameFault::Invalid(codec::invalid("trailing directory helper data"@)))
                },
            },
        }
    }
}

#[derive(Debug, Clone, PartialEq, Eq)]
pub struct Batch {
    pub entries: Vec<FileEntry>,
    pub skipped: usize,
    pub done: bool,
}

impl Batch {
    pub open spec fn data(self) -> BatchData {
        BatchData {
            entries: numbered_data(self.entries@),
            skipped: self.skipped as nat,
            done: self.done,
        }
    }
}

/// Why no batch could be had: the frame is broken, or it reports an error.
#[derive(Debug, Clone, PartialEq, Eq)]
pub enum BatchError {
    Invalid(IoError),
    Remote(RemoteError),
}

pub open spec fn is_frame_fault(error: BatchError, fault: FrameFault) -> bool {
    match (error, fault) {
        (BatchError::Invalid(error), FrameFault::Invalid(fault)) => codec::is_fault(error, fault),
        (BatchError::Remote(error), FrameFault::Remote(found)) => error == found,
        _ => false,
    }
}

/// The sizes of folders on the network are in no index, those of others are not known yet.
pub open spec fn shown_size(path: Seq<u16>) -> FolderSizeState {
    if network::is_unc(path) {
        FolderSizeState::NotIndexed
    } else {
        FolderSizeState::Unknown
    }
}

/// The entries are shown by their names and folders.
pub open spec fn presented(entries: Seq<FileEntry>) -> bool {
    forall|i: int|
        0 <= i < entries.len() ==> {
            &&& (#[trigger] entries[i]).is_presented()
            &&& entries[i].folder_size == shown_size(entries[i].path@)
        }
}

fn invalid_batch(message: &str) -> (error: BatchError)
    ensures
        is_frame_fault(error, FrameFault::Invalid(codec::invalid(message@))),
{
    BatchError::Invalid(IoError::new(ErrorKind::InvalidData, message))
}

fn read_frame_head(b: &[u8]) -> (result: Result<((u32, u64, bool), usize), BatchError>)
    ensures
        match (result, frame_head(b@)) {
            (Ok(read), Ok(found)) => read.0 == found.0 && read.1 == found.1 && read.1 <= b@.len(),
            (Err(error), Err(fault)) => is_frame_fault(error, fault),
            _ => false,
        },
{
    let (count, at) = match read_u32(b, 0) {
        Ok(read) => read,
        Err(error) => {
            return Err(BatchError::Invalid(error));
        },
    };
    if count > MAX_BATCH_ITEMS as u32 {
        return Err(invalid_batch("too many helper items"));
    }
    let (skipped, at) = match read_u64(b, at) {
        Ok(read) => read,
        Err(error) => {
            return Err(BatchError::Invalid(error));
        },
    };
    if skipped > usize::MAX as u64 {
        return Err(invalid_batch("invalid skipped count"));
    }
    let (mark, at) = match read_byte(b, at) {
        Ok(read) => read,
        Err(error) => {
            return Err(BatchError::Invalid(error));
        },
    };
    if mark == 0 {
        Ok(((count, skipped, false), at))
    } else if mark == 1 && count == 0 && skipped == 0 {
        Ok(((count, skipped, true), at))
    } else if mark == 2 && count == 0 && skipped == 0 {
        match decode_error(b, at) {
            Ok(error) => Err(BatchError::Remote(error)),
            Err(error) => Err(BatchError::Invalid(error)),
        }
    } else {
        Err(invalid_batch("invalid completion batch"))
    }
}

fn read_numbered(b: &[u8], at: usize) -> (result: Result<(FileEntry, usize), IoError>)
    requires
        at <= b@.len(),
    ensures
        match (result, numbered_at(b@, at as int)) {
            (Ok(read), Ok(found)) => {
                &&& found.0 == (NumberedData { id: read.0.id.0, entry: read.0.data() })
                &&& read.1 == found.1
                &&& read.1 <= b@.len()
                &&& read.0.is_presented()
                &&& read.0.folder_size == shown_size(read.0.path@)
            },
            (Err(error), Err(fault)) => codec::is_fault(error, fault),
            _ => false,
        },
{
    let (id, at) = match read_u32(b, at) {
        Ok(read) => read,
        Err(error) => {
            return Err(error);
        },
    };
    let (fields, at) = match read_entry(b, at) {
        Ok(read) => read,
        Err(error) => {
            return Err(error);
        },
    };
    let size = if is_unc_path(&fields.path) {
        FolderSizeState::NotIndexed
    } else {
        FolderSizeState::Unknown
    };
    Ok((present(fields, id, size), at))
}

pub fn read_batch(b: &[u8]) -> (result: Result<Batch, BatchError>)
    ensures
        match (result, batch_in(b@)) {
            (Ok(batch), Ok(found)) => batch.data() == found && presented(batch.entries@),
            (Err(error), Err(fault)) => is_frame_fault(error, fault),
            _ => false,
        },
{
    if b.len() > MAX_BATCH_BYTES {
        return Err(invalid_batch("helper result too large"));
    }
    let ((count, skipped, done), start) = match read_frame_head(b) {
        Ok(read) => read,
        Err(error) => {
            return Err(error);
        },
    };
    let mut entries: Vec<FileEntry> = Vec::new();
    let mut offset: usize = start;
    let mut i: u32 = 0;
    assert(numbered_data(entries@) =~= Seq::empty());
    while i < count
        invariant
            i <= count,
            offset <= b@.len(),
            presented(entries@),
            b@.len() <= MAX_BATCH_BYTES,
            frame_head(b@) == Ok::<((u32, u64, bool), int), FrameFault>(
                ((count, skipped, done), start as int),
            ),
            codec::list_at(numbered_reader(), b@, start as int, i as nat) == Ok::<
                (Seq<NumberedData>, int),
                Fault,
            >((numbered_data(entries@), offset as int)),
        decreases count - i,
    {
        match read_numbered(b, offset) {
            Ok((read, next)) => {
                let ghost before = numbered_data(entries@);
                let ghost value = NumberedData { id: read.id.0, entry: read.data() };
                entries.push(read);
                offset = next;
                assert(numbered_data(entries@) =~= before.push(value));
            },
            Err(error) => {
                proof {
                    assert(codec::list_at(
                        numbered_reader(),
                        b@,
                        start as int,
                        (i + 1) as nat,
                    ) is Err);
                    codec::lemma_list_stays_faulty(
                        numbered_reader(),
                        b@,
                        start as int,
                        (i + 1) as nat,
                        count as nat,
                    );
                }
                return Err(BatchError::Invalid(error));
            },
        }
        i += 1;
    }
    if offset != b.len() {
        return Err(invalid_batch("trailing directory helper data"));
    }
    Ok(Batch { entries, skipped: skipped as usize, done })
}

// ---- laws ----

proof fn lemma_numbered_at(b: Seq<u8>, at: int, value: NumberedData)
    requires
        codec::holds(b, at, numbered_out(value)),
        entry::entry_valid(value.entry),
    ensures
        numbered_at(b, at) == Ok::<(NumberedData, int), Fault>(
            (value, at + numbered_out(value).len()),
        ),
{
    let id = bytes::bytes32(value.id);
    assert(id.len() == 4);
    codec::lemma_split(b, at, id, entry::entry_out(value.entry));
    codec::lemma_u32_at(b, at, value.id);
    entry::law_entry_round_trip(b, at + 4, value.entry);
}

proof fn lemma_within_limit(entries: Seq<NumberedData>)
    requires
        codec::list_fault(numbered_writer(), numbered_fits(), 13, MAX_BATCH_BYTES as nat, entries)
            is None,
    ensures
        13 + codec::list_out(numbered_writer(), entries).len() <= MAX_BATCH_BYTES,
{
}

pub open spec fn batch_valid(entries: Seq<NumberedData>) -> bool {
    forall|i: int| 0 <= i < entries.len() ==> entry::entry_valid((#[trigger] entries[i]).entry)
}

/// A batch is read as it was written, where its times are none before 1970.
pub proof fn law_batch_round_trip(batch: BatchData)
    requires
        batch_fault(batch) is None,
        batch_valid(batch.entries),
        batch.skipped <= usize::MAX,
    ensures
        batch_in(batch_out(batch)) == Ok::<BatchData, FrameFault>(batch),
{
    let b = batch_out(batch);
    let count = batch.entries.len() as u32;
    let skipped = batch.skipped as u64;
    let mark = codec::flag_byte(batch.done);
    let list = codec::list_out(numbered_writer(), batch.entries);
    codec::lemma_whole(b);
    codec::lemma_split(b, 0, codec::head_out(count, skipped, mark), list);
    codec::lemma_head(b, count, skipped, mark);
    lemma_within_limit(batch.entries);
    assert forall|i: int, p: int|
        #![trigger codec::holds(b, p, numbered_writer()(batch.entries[i]))]
        0 <= i < batch.entries.len() && codec::holds(
            b,
            p,
            numbered_writer()(batch.entries[i]),
        ) implies numbered_reader()(b, p) == Ok::<(NumberedData, int), Fault>(
        (batch.entries[i], p + numbered_writer()(batch.entries[i]).len()),
    ) by {
        lemma_numbered_at(b, p, batch.entries[i]);
    }
    codec::lemma_list_at(numbered_reader(), numbered_writer(), b, 13, batch.entries);
}

/// An error that the helper process reports arrives with its number, or with its kind where it
/// has none. The number zero stands for no error and is refused.
pub proof fn law_error_round_trip(error: IoError)
    ensures
        batch_in(error_out(reported(error))) == Err::<BatchData, FrameFault>(
            if error.code == Some(0i32) {
                FrameFault::Invalid(broken())
            } else {
                FrameFault::Remote(reported(error))
            },
        ),
{
    let b = error_out(reported(error));
    codec::lemma_whole(b);
    match reported(error) {
        RemoteError::Code(code) => {
            let number = bytes::bytes32(code as u32);
            assert(number.len() == 4);
            codec::lemma_split(b, 0, codec::head_out(0, 0, 2), seq![0u8] + number);
            codec::lemma_head(b, 0, 0, 2);
            codec::lemma_split(b, 13, seq![0u8], number);
            codec::lemma_byte_at(b, 13, 0);
            codec::lemma_u32_at(b, 14, code as u32);
            assert((code as u32) as i32 == code && ((code as u32 == 0u32) == (code == 0i32)))
                by (bit_vector);
        },
        RemoteError::Kind(kind) => {
            codec::lemma_split(b, 0, codec::head_out(0, 0, 2), seq![kind_tag(kind)]);
            codec::lemma_head(b, 0, 0, 2);
            codec::lemma_byte_at(b, 13, kind_tag(kind));
        },
    }
}

/// The frame holds a batch or reports an error.
pub open spec fn is_sound(b: Seq<u8>) -> bool {
    batch_in(b) matches Err(fault) ==> fault is Remote
}

proof fn lemma_numbered_extends(c: Seq<u8>, n: int, at: int)
    requires
        0 <= at,
        0 <= n <= c.len(),
    ensures
        codec::extends(numbered_reader(), c, n, at),
{
    codec::lemma_numbers_extend(c, n, at);
    entry::lemma_entry_extends(c, n, at + 4);
}

/// A frame that is cut short, or that something follows, is never taken for another one: of two
/// frames of which one begins the other, no more than one is sound.
pub proof fn law_frames_are_unambiguous(c: Seq<u8>, n: int)
    requires
        0 <= n < c.len(),
    ensures
        !(is_sound(c) && is_sound(c.take(n))),
{
    let b = c.take(n);
    if is_sound(c) && is_sound(b) {
        codec::lemma_numbers_extend(c, n, 0);
        codec::lemma_numbers_extend(c, n, 4);
        codec::lemma_numbers_extend(c, n, 12);
        codec::lemma_numbers_extend(c, n, 13);
        codec::lemma_numbers_extend(c, n, 14);
        assert forall|p: int| 0 <= p implies #[trigger] codec::extends(
            numbered_reader(),
            c,
            n,
            p,
        ) by {
            lemma_numbered_extends(c, n, p);
        }
        if let Ok(((count, skipped, done), at)) = frame_head(b) {
            codec::lemma_list_extends(numbered_reader(), c, n, 13, count as nat);
        }
    }
}

// ---- laws of the frames ----

proof fn lemma_batch_sendable(entries: Seq<NumberedData>, i: int)
    requires
        0 <= i < entries.len(),
        codec::list_fault(numbered_writer(), numbered_fits(), 13, MAX_BATCH_BYTES as nat, entries)
            is None,
    ensures
        entry::entry_sendable(entries[i].entry),
    decreases entries.len(),
{
    if i < entries.len() - 1 {
        lemma_batch_sendable(entries.drop_last(), i);
        assert(entries.drop_last()[i] == entries[i]);
    } else {
        assert(numbered_fits()(entries.last()));
    }
}

/// Both entries say the same, under the same number.
pub open spec fn same_entry(here: FileEntry, there: FileEntry) -> bool {
    &&& here.id == there.id
    &&& here.original_name@ == there.original_name@
    &&& here.path@ == there.path@
    &&& here.kind == there.kind
    &&& here.size_bytes == there.size_bytes
    &&& here.modified == there.modified
    &&& here.created == there.created
}

pub proof fn lemma_same_entries(here: Seq<FileEntry>, there: Seq<FileEntry>)
    requires
        numbered_data(here) == numbered_data(there),
    ensures
        here.len() == there.len(),
        forall|i: int| 0 <= i < here.len() ==> same_entry(#[trigger] here[i], there[i]),
{
    assert(numbered_data(here).len() == here.len());
    assert(numbered_data(there).len() == there.len());
    assert forall|i: int| 0 <= i < here.len() implies same_entry(#[trigger] here[i], there[i]) by {
        let a = numbered_data(here)[i];
        assert(a == numbered_data(there)[i]);
        assert(a == NumberedData { id: here[i].id.0, entry: here[i].data() });
        assert(a == NumberedData { id: there[i].id.0, entry: there[i].data() });
        assert(here[i].data().name == here[i].original_name@);
        assert(here[i].data().path == here[i].path@);
    }
}

/// What was written can be read.
pub proof fn lemma_batch_is_valid(
    entries: &[FileEntry],
    skipped: usize,
    done: bool,
    frame: Vec<u8>,
)
    requires
        call_ensures(encode_batch, (entries, skipped, done), Ok(frame)),
        forall|i: int|
            0 <= i < entries@.len() ==> codec::valid_time((#[trigger] entries@[i]).modified)
                && codec::valid_time(entries@[i].created),
    ensures
        batch_valid(numbered_data(entries@)),
{
    let data = numbered_data(entries@);
    assert forall|i: int| 0 <= i < data.len() implies entry::entry_valid(
        (#[trigger] data[i]).entry,
    ) by {
        assert(data[i].entry == entries@[i].data());
        lemma_batch_sendable(data, i);
    }
}

/// A batch arrives as it was sent: every entry with its number, name, path, kind, size and times,
/// the count of what could not be read, and whether it was the last one.
pub proof fn law_a_sent_batch_arrives(
    entries: &[FileEntry],
    skipped: usize,
    done: bool,
    frame: Vec<u8>,
    received: &[u8],
    result: Result<Batch, BatchError>,
)
    requires
        call_ensures(encode_batch, (entries, skipped, done), Ok(frame)),
        forall|i: int|
            0 <= i < entries@.len() ==> codec::valid_time((#[trigger] entries@[i]).modified)
                && codec::valid_time(entries@[i].created),
        received@ == frame@,
        call_ensures(read_batch, (received,), result),
    ensures
        result matches Ok(batch) && {
            &&& batch.skipped == skipped
            &&& batch.done == done
            &&& batch.entries@.len() == entries@.len()
            &&& forall|i: int|
                0 <= i < entries@.len() ==> same_entry(#[trigger] batch.entries@[i], entries@[i])
        },
{
    let data = BatchData { entries: numbered_data(entries@), skipped: skipped as nat, done };
    lemma_batch_is_valid(entries, skipped, done, frame);
    law_batch_round_trip(data);
    assert(result->Ok_0.data() == data);
    lemma_same_entries(result->Ok_0.entries@, entries@);
}

/// An error of the helper is told at the other end as what it was: by its number, or by its kind.
pub proof fn law_a_sent_error_arrives(
    error: IoError,
    frame: Vec<u8>,
    received: &[u8],
    result: Result<Batch, BatchError>,
)
    requires
        error.code != Some(0i32),
        call_ensures(encode_error, (&error,), frame),
        received@ == frame@,
        call_ensures(read_batch, (received,), result),
    ensures
        error.code matches Some(code) ==> result == Err::<Batch, _>(
            BatchError::Remote(RemoteError::Code(code)),
        ),
        error.code is None && (error.kind == ErrorKind::NotFound || error.kind
            == ErrorKind::PermissionDenied || error.kind == ErrorKind::Interrupted || error.kind
            == ErrorKind::TimedOut || error.kind == ErrorKind::InvalidData) ==> result == Err::<
            Batch,
            _,
        >(BatchError::Remote(RemoteError::Kind(error.kind))),
        result matches Err(BatchError::Remote(_)),
{
    law_error_round_trip(error);
}

} // verus!
