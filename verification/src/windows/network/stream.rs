//! How a folder is sent in batches, and how the batches are received.
use vstd::prelude::*;

use crate::bytes;
use crate::errors;
use crate::errors::{ErrorKind, IoError};
use crate::text::{push_text, text_of};
use crate::windows::network::codec;
use crate::windows::network::codec::Fault;
use crate::windows::network::directory;
use crate::windows::network::directory::{
    encode_error, read_batch, BatchData, BatchError, FrameFault, NumberedData, BATCH_INTERVAL_MS,
    MAX_BATCH_BYTES, MAX_BATCH_ITEMS,
};
use crate::windows::network::entry;
use crate::windows::network::entry::FileEntry;

verus! {

// ---- receiving ----

/// The number that is expected after entries with these numbers.
pub open spec fn after_ids(first: u32, entries: Seq<NumberedData>) -> Result<u32, Fault>
    decreases entries.len(),
{
    if entries.len() == 0 {
        Ok(first)
    } else {
        match after_ids(first, entries.drop_last()) {
            Err(fault) => Err(fault),
            Ok(next) => if entries.last().id != next {
                Err(codec::invalid("out of order directory entry"@))
            } else if next == u32::MAX {
                Err(codec::invalid("directory identity overflow"@))
            } else {
                Ok((next + 1) as u32)
            },
        }
    }
}

/// How far a stream was received.
pub struct Received {
    pub next_id: u32,
    pub skipped: nat,
    pub completed: bool,
}

pub open spec fn nothing_received() -> Received {
    Received { next_id: 1, skipped: 0, completed: false }
}

/// What a further batch makes of a stream.
pub open spec fn with_batch(received: Received, batch: BatchData) -> Result<Received, Fault> {
    match after_ids(received.next_id, batch.entries) {
        Err(fault) => Err(fault),
        Ok(next_id) => if received.skipped + batch.skipped > usize::MAX {
            Err(codec::invalid("skipped count overflow"@))
        } else {
            Ok(
                Received {
                    next_id,
                    skipped: received.skipped + batch.skipped,
                    completed: batch.done,
                },
            )
        },
    }
}

/// What a further frame makes of a stream. Nothing follows the last batch.
pub open spec fn with_frame(received: Received, b: Seq<u8>) -> Result<
    (Received, BatchData),
    FrameFault,
> {
    if received.completed {
        Err(FrameFault::Invalid(codec::invalid("data after directory completion"@)))
    } else {
        match directory::batch_in(b) {
            Err(fault) => Err(fault),
            Ok(batch) => match with_batch(received, batch) {
                Err(fault) => Err(FrameFault::Invalid(fault)),
                Ok(received) => Ok((received, batch)),
            },
        }
    }
}

/// The receiving end of a stream.
#[derive(Debug, Clone, Copy, PartialEq, Eq, Structural)]
pub struct DirectoryReceiver {
    skipped: usize,
    next_id: u32,
    completed: bool,
}

/// How the helper process ended, with the system's words for it.
#[derive(Debug, Clone, PartialEq, Eq)]
pub struct ExitReport {
    pub success: bool,
    pub text: String,
}

/// What follows when there is no frame to take.
#[derive(Debug, Clone, PartialEq, Eq)]
pub enum StreamStep {
    Wait,
    Done(usize),
    Failed(IoError),
}

pub fn cancelled() -> (error: IoError)
    ensures
        errors::fails_with(error, ErrorKind::Interrupted, "network directory cancelled"@),
{
    IoError::new(ErrorKind::Interrupted, "network directory cancelled")
}

pub open spec fn bool_text(value: bool) -> Seq<char> {
    if value {
        "true"@
    } else {
        "false"@
    }
}

impl DirectoryReceiver {
    pub closed spec fn state(self) -> Received {
        Received { next_id: self.next_id, skipped: self.skipped as nat, completed: self.completed }
    }

    pub fn new() -> (receiver: Self)
        ensures
            receiver.state() == nothing_received(),
    {
        DirectoryReceiver { skipped: 0, next_id: 1, completed: false }
    }

    /// Takes a frame and gives out its entries.
    pub fn frame(&mut self, b: &[u8]) -> (result: Result<Vec<FileEntry>, BatchError>)
        ensures
            match (result, with_frame(old(self).state(), b@)) {
                (Ok(entries), Ok((received, batch))) => {
                    &&& final(self).state() == received
                    &&& directory::numbered_data(entries@) == batch.entries
                    &&& directory::presented(entries@)
                },
                (Err(error), Err(fault)) => directory::is_frame_fault(error, fault)
                    && final(self).state() == old(self).state(),
                _ => false,
            },
    {
        if self.completed {
            return Err(
                BatchError::Invalid(
                    IoError::new(ErrorKind::InvalidData, "data after directory completion"),
                ),
            );
        }
        let batch = match read_batch(b) {
            Ok(batch) => batch,
            Err(error) => {
                return Err(error);
            },
        };
        let next_id = match check_ids(&batch.entries, self.next_id) {
            Ok(next_id) => next_id,
            Err(error) => {
                return Err(BatchError::Invalid(error));
            },
        };
        match self.skipped.checked_add(batch.skipped) {
            None => Err(
                BatchError::Invalid(
                    IoError::new(ErrorKind::InvalidData, "skipped count overflow"),
                ),
            ),
            Some(skipped) => {
                self.skipped = skipped;
                self.next_id = next_id;
                self.completed = batch.done;
                Ok(batch.entries)
            },
        }
    }

    /// Whether the helper process makes no progress: no frame has come for as long as the limit.
    /// `idle_ms` counts from the last frame that was taken, or from the start.
    pub fn is_idle(&self, idle_ms: u128, limit_ms: u64) -> (idle: bool)
        ensures
            idle == (idle_ms >= limit_ms),
    {
        idle_ms >= limit_ms as u128
    }

    /// When there is no frame: the stream ends with the helper process, and it is an error where
    /// that ended badly or before its last batch, or where it makes no progress.
    pub fn settle(&self, exit: Option<ExitReport>, idle_ms: u128, limit_ms: u64) -> (step:
        StreamStep)
        ensures
            match exit {
                Some(exit) => if exit.success && self.state().completed {
                    step == StreamStep::Done(self.state().skipped as usize)
                } else {
                    step matches StreamStep::Failed(error) && errors::fails_with(
                        error,
                        ErrorKind::Other,
                        "network directory helper exited with "@ + exit.text@ + "; completed="@
                            + bool_text(self.state().completed),
                    )
                },
                None => if idle_ms >= limit_ms {
                    step matches StreamStep::Failed(error) && errors::fails_with(
                        error,
                        ErrorKind::TimedOut,
                        "network directory helper made no progress"@,
                    )
                } else {
                    step == StreamStep::Wait
                },
            },
    {
        match exit {
            Some(exit) => {
                if exit.success && self.completed {
                    return StreamStep::Done(self.skipped);
                }
                let mut text = text_of("network directory helper exited with ");
                push_text(&mut text, &exit.text);
                push_text(&mut text, "; completed=");
                if self.completed {
                    push_text(&mut text, "true");
                } else {
                    push_text(&mut text, "false");
                }
                StreamStep::Failed(IoError::new(ErrorKind::Other, &text))
            },
            None => if self.is_idle(idle_ms, limit_ms) {
                StreamStep::Failed(
                    IoError::new(ErrorKind::TimedOut, "network directory helper made no progress"),
                )
            } else {
                StreamStep::Wait
            },
        }
    }
}

proof fn lemma_ids_stay_faulty(first: u32, entries: Seq<NumberedData>, some: int)
    requires
        0 <= some <= entries.len(),
        after_ids(first, entries.take(some)) is Err,
    ensures
        after_ids(first, entries) == after_ids(first, entries.take(some)),
    decreases entries.len(),
{
    if some < entries.len() {
        assert(entries.drop_last().take(some) =~= entries.take(some));
        lemma_ids_stay_faulty(first, entries.drop_last(), some);
    } else {
        assert(entries.take(some) =~= entries);
    }
}

fn check_ids(entries: &Vec<FileEntry>, first: u32) -> (result: Result<u32, IoError>)
    ensures
        match (result, after_ids(first, directory::numbered_data(entries@))) {
            (Ok(next), Ok(found)) => next == found,
            (Err(error), Err(fault)) => codec::is_fault(error, fault),
            _ => false,
        },
{
    let n: usize = entries.len();
    let mut next: u32 = first;
    let mut i: usize = 0;
    let ghost data = directory::numbered_data(entries@);
    assert(data.take(0) =~= Seq::empty());
    while i < n
        invariant
            i <= n,
            n == entries@.len(),
            data == directory::numbered_data(entries@),
            after_ids(first, data.take(i as int)) == Ok::<u32, Fault>(next),
        decreases n - i,
    {
        let id: u32 = entries[i].id.0;
        proof {
            let more = data.take(i + 1);
            assert(more.drop_last() =~= data.take(i as int));
            assert(more.last() == data[i as int]);
            if after_ids(first, more) is Err {
                lemma_ids_stay_faulty(first, data, i + 1);
            }
        }
        if id != next {
            return Err(IoError::new(ErrorKind::InvalidData, "out of order directory entry"));
        }
        if next == u32::MAX {
            return Err(IoError::new(ErrorKind::InvalidData, "directory identity overflow"));
        }
        next += 1;
        i += 1;
    }
    assert(data.take(n as int) =~= data);
    Ok(next)
}

/// What the batches of a stream come to.
pub open spec fn received(batches: Seq<BatchData>) -> Result<Received, Fault>
    decreases batches.len(),
{
    if batches.len() == 0 {
        Ok(nothing_received())
    } else {
        match received(batches.drop_last()) {
            Err(fault) => Err(fault),
            Ok(before) => if before.completed {
                Err(codec::invalid("data after directory completion"@))
            } else {
                with_batch(before, batches.last())
            },
        }
    }
}

/// The entries of all batches, in the order in which they came.
pub open spec fn all_entries(batches: Seq<BatchData>) -> Seq<NumberedData>
    decreases batches.len(),
{
    if batches.len() == 0 {
        Seq::empty()
    } else {
        all_entries(batches.drop_last()) + batches.last().entries
    }
}

pub proof fn lemma_ids_count_up(first: u32, entries: Seq<NumberedData>)
    requires
        after_ids(first, entries) is Ok,
    ensures
        after_ids(first, entries) == Ok::<u32, Fault>((first + entries.len()) as u32),
        first + entries.len() <= u32::MAX,
        forall|i: int| 0 <= i < entries.len() ==> (#[trigger] entries[i]).id == first + i,
    decreases entries.len(),
{
    if entries.len() > 0 {
        let before = entries.drop_last();
        lemma_ids_count_up(first, before);
        assert forall|i: int| 0 <= i < entries.len() implies (#[trigger] entries[i]).id == first
            + i by {
            if i < before.len() {
                assert(before[i] == entries[i]);
            }
        }
    }
}

/// The entries of a stream are numbered from one on without a gap, over all its batches: none
/// comes twice, and none is lost.
pub proof fn law_stream_is_gapless(batches: Seq<BatchData>)
    requires
        received(batches) is Ok,
    ensures
        received(batches)->Ok_0.next_id == all_entries(batches).len() + 1,
        forall|i: int|
            0 <= i < all_entries(batches).len() ==> (#[trigger] all_entries(batches)[i]).id == i
                + 1,
    decreases batches.len(),
{
    if batches.len() > 0 {
        let before = batches.drop_last();
        law_stream_is_gapless(before);
        let known = all_entries(before);
        let more = batches.last().entries;
        let first = received(before)->Ok_0.next_id;
        lemma_ids_count_up(first, more);
        assert forall|i: int| 0 <= i < all_entries(batches).len() implies (
        #[trigger] all_entries(batches)[i]).id == i + 1 by {
            if i < known.len() {
                assert(all_entries(batches)[i] == known[i]);
            } else {
                assert(all_entries(batches)[i] == more[i - known.len()]);
            }
        }
    }
}

/// The entries that could not be read, over all batches.
pub open spec fn total_skipped(batches: Seq<BatchData>) -> nat
    decreases batches.len(),
{
    if batches.len() == 0 {
        0
    } else {
        total_skipped(batches.drop_last()) + batches.last().skipped
    }
}

proof fn lemma_counted_ids(first: u32, entries: Seq<NumberedData>)
    requires
        first + entries.len() <= u32::MAX,
        forall|i: int| 0 <= i < entries.len() ==> (#[trigger] entries[i]).id == first + i,
    ensures
        after_ids(first, entries) == Ok::<u32, Fault>((first + entries.len()) as u32),
    decreases entries.len(),
{
    if entries.len() > 0 {
        let before = entries.drop_last();
        assert forall|i: int| 0 <= i < before.len() implies (#[trigger] before[i]).id == first
            + i by {
            assert(before[i] == entries[i]);
        }
        lemma_counted_ids(first, before);
        assert(entries[entries.len() - 1].id == first + before.len());
    }
}

/// Batches whose entries are numbered from one on are received, whatever lies in each of them.
pub proof fn law_numbered_batches_are_received(batches: Seq<BatchData>)
    requires
        forall|i: int| 0 <= i < batches.len() ==> !(#[trigger] batches[i]).done,
        all_entries(batches).len() < u32::MAX,
        forall|i: int|
            0 <= i < all_entries(batches).len() ==> (#[trigger] all_entries(batches)[i]).id == i
                + 1,
        total_skipped(batches) <= usize::MAX,
    ensures
        received(batches) == Ok::<Received, Fault>(
            Received {
                next_id: (all_entries(batches).len() + 1) as u32,
                skipped: total_skipped(batches),
                completed: false,
            },
        ),
    decreases batches.len(),
{
    if batches.len() > 0 {
        let before = batches.drop_last();
        let known = all_entries(before);
        let more = batches.last().entries;
        assert forall|i: int| 0 <= i < before.len() implies !(#[trigger] before[i]).done by {
            assert(before[i] == batches[i]);
        }
        assert forall|i: int| 0 <= i < known.len() implies (#[trigger] known[i]).id == i + 1 by {
            assert(known[i] == all_entries(batches)[i]);
        }
        law_numbered_batches_are_received(before);
        assert forall|i: int| 0 <= i < more.len() implies (#[trigger] more[i]).id == (known.len()
            + 1) + i by {
            assert(more[i] == all_entries(batches)[known.len() + i]);
        }
        lemma_counted_ids((known.len() + 1) as u32, more);
        assert(!batches[batches.len() - 1].done);
    }
}

/// A stream that is complete has had its empty last batch, and only once.
pub proof fn law_completion_is_last(batches: Seq<BatchData>, i: int)
    requires
        received(batches) is Ok,
        0 <= i < batches.len(),
        batches[i].done,
    ensures
        i == batches.len() - 1,
        received(batches)->Ok_0.completed,
    decreases batches.len(),
{
    let before = batches.drop_last();
    if i < before.len() {
        assert(before[i] == batches[i]);
        law_completion_is_last(before, i);
    }
}

// ---- sending ----

/// No less room than an entry takes in a batch.
pub open spec fn estimate(entry: FileEntry) -> int {
    64int + 2 * (entry.original_name@.len() + entry.path@.len())
}

pub open spec fn estimates(entries: Seq<FileEntry>) -> int
    decreases entries.len(),
{
    if entries.len() == 0 {
        0
    } else {
        estimates(entries.drop_last()) + estimate(entries.last())
    }
}

/// Entries that are sent together.
#[derive(Debug, Clone, PartialEq, Eq)]
pub struct OutBatch {
    pub entries: Vec<FileEntry>,
    pub skipped: usize,
}

/// What is sent when an entry is added: what was gathered before it, where it has no more room
/// there, and then what was gathered with it, where that is due at once.
#[derive(Debug, Clone, PartialEq, Eq)]
pub struct Added {
    pub before: Option<OutBatch>,
    pub due: Option<OutBatch>,
}

/// The sending end of a stream.
#[derive(Debug, Clone, PartialEq, Eq)]
pub struct DirectoryBatcher {
    entries: Vec<FileEntry>,
    batch_bytes: usize,
    skipped: usize,
    next_id: u32,
}

/// What was gathered, and the number of the next entry.
pub struct Gathered {
    pub entries: Seq<FileEntry>,
    pub skipped: usize,
    pub next_id: u32,
}

/// The batch has room for its entries: each of them in turn was added while it had room, or it
/// stands alone.
pub open spec fn has_room(entries: Seq<FileEntry>) -> bool {
    &&& entries.len() <= MAX_BATCH_ITEMS
    &&& 13 + estimates(entries) <= MAX_BATCH_BYTES || entries.len() <= 1
}

/// The numbers of the entries lead up to the next one.
pub open spec fn leads_up(entries: Seq<FileEntry>, next_id: u32) -> bool {
    forall|i: int|
        0 <= i < entries.len() ==> (#[trigger] entries[i]).id.0 == next_id - entries.len() + i
}

pub open spec fn holds_out(
    batch: Option<OutBatch>,
    entries: Seq<FileEntry>,
    skipped: usize,
) -> bool {
    batch matches Some(batch) && batch.entries@ == entries && batch.skipped == skipped
}

/// Nothing is gathered; the numbers go on.
pub open spec fn emptied(gathered: Gathered) -> Gathered {
    Gathered { entries: Seq::empty(), skipped: 0, next_id: gathered.next_id }
}

/// The entry has no more room beside what was gathered.
pub open spec fn lacks_room(gathered: Gathered, entry: FileEntry) -> bool {
    gathered.entries.len() > 0 && 13 + estimates(gathered.entries) + estimate(entry)
        > MAX_BATCH_BYTES
}

/// What is gathered with a further entry.
pub open spec fn joined(gathered: Gathered, entry: FileEntry) -> Gathered {
    let room = if lacks_room(gathered, entry) {
        emptied(gathered)
    } else {
        gathered
    };
    Gathered {
        entries: room.entries.push(entry),
        next_id: (gathered.next_id + 1) as u32,
        ..room
    }
}

/// What is gathered with the entry is given out at once: the first entry of the folder, and one
/// that fills a batch.
pub open spec fn due_at_once(gathered: Gathered, entry: FileEntry) -> bool {
    gathered.next_id == 1 || joined(gathered, entry).entries.len() >= MAX_BATCH_ITEMS
}

impl DirectoryBatcher {
    pub closed spec fn state(self) -> Gathered {
        Gathered { entries: self.entries@, skipped: self.skipped, next_id: self.next_id }
    }

    pub closed spec fn well_formed(self) -> bool {
        &&& self.next_id >= 1
        &&& self.entries@.len() < MAX_BATCH_ITEMS
        &&& has_room(self.entries@)
        &&& leads_up(self.entries@, self.next_id)
        &&& if 13 + estimates(self.entries@) <= MAX_BATCH_BYTES {
            self.batch_bytes == 13 + estimates(self.entries@)
        } else {
            self.batch_bytes > MAX_BATCH_BYTES
        }
    }

    pub fn new() -> (batcher: Self)
        ensures
            batcher.well_formed(),
            batcher.state().entries.len() == 0,
            batcher.state().skipped == 0,
            batcher.state().next_id == 1,
    {
        DirectoryBatcher { entries: Vec::new(), batch_bytes: 13, skipped: 0, next_id: 1 }
    }

    /// The number that the next entry is to have.
    pub fn next_id(&self) -> (id: u32)
        ensures
            id == self.state().next_id,
    {
        self.next_id
    }

    /// Counts an entry that cannot be read.
    pub fn skip(&mut self)
        requires
            old(self).well_formed(),
        ensures
            final(self).well_formed(),
            final(self).state() == (Gathered {
                skipped: entry::one_more(old(self).state().skipped),
                ..old(self).state()
            }),
    {
        self.skipped = self.skipped.saturating_add(1);
    }

    /// Gives out what was gathered.
    pub fn take(&mut self) -> (batch: OutBatch)
        requires
            old(self).well_formed(),
        ensures
            final(self).well_formed(),
            holds_out(Some(batch), old(self).state().entries, old(self).state().skipped),
            has_room(batch.entries@),
            leads_up(batch.entries@, old(self).state().next_id),
            final(self).state() == emptied(old(self).state()),
    {
        let mut entries: Vec<FileEntry> = Vec::new();
        std::mem::swap(&mut entries, &mut self.entries);
        let skipped: usize = self.skipped;
        self.batch_bytes = 13;
        self.skipped = 0;
        assert(self.entries@ =~= Seq::empty());
        OutBatch { entries, skipped }
    }

    /// What is left at the end of the folder, where anything is.
    pub fn finish(&mut self) -> (batch: Option<OutBatch>)
        requires
            old(self).well_formed(),
        ensures
            final(self).well_formed(),
            final(self).state() == emptied(old(self).state()),
            if old(self).state().entries.len() > 0 || old(self).state().skipped > 0 {
                &&& holds_out(batch, old(self).state().entries, old(self).state().skipped)
                &&& has_room(batch->Some_0.entries@)
                &&& leads_up(batch->Some_0.entries@, old(self).state().next_id)
            } else {
                batch is None
            },
    {
        if self.entries.len() > 0 || self.skipped > 0 {
            Some(self.take())
        } else {
            assert(self.state().entries =~= Seq::empty());
            None
        }
    }

    /// Whether a batch is due by the time since the last one. This is asked before and after each
    /// entry of the folder.
    pub fn is_due(&self, elapsed_ms: u128) -> (due: bool)
        ensures
            due == (elapsed_ms >= BATCH_INTERVAL_MS),
    {
        elapsed_ms >= BATCH_INTERVAL_MS as u128
    }

    /// Gives out what was gathered, be it nothing, once that is due by the time since the last
    /// batch.
    pub fn take_due(&mut self, elapsed_ms: u128) -> (batch: Option<OutBatch>)
        requires
            old(self).well_formed(),
        ensures
            final(self).well_formed(),
            if elapsed_ms >= BATCH_INTERVAL_MS {
                &&& holds_out(batch, old(self).state().entries, old(self).state().skipped)
                &&& has_room(batch->Some_0.entries@)
                &&& leads_up(batch->Some_0.entries@, old(self).state().next_id)
                &&& final(self).state() == emptied(old(self).state())
            } else {
                batch is None && final(self).state() == old(self).state()
            },
    {
        if self.is_due(elapsed_ms) {
            Some(self.take())
        } else {
            None
        }
    }

    /// Adds an entry. What was gathered is given out first where the entry has no room there. The
    /// first entry of the folder, and one that fills a batch, are given out at once.
    pub fn add(&mut self, entry: FileEntry) -> (result: Result<Added, (Option<OutBatch>, IoError)>)
        requires
            old(self).well_formed(),
            entry.id.0 == old(self).state().next_id,
        ensures
            final(self).well_formed(),
            ({
                let old = old(self).state();
                let now = final(self).state();
                let full = joined(old, entry);
                let before = match result {
                    Ok(added) => added.before,
                    Err((before, _)) => before,
                };
                &&& if lacks_room(old, entry) {
                    &&& holds_out(before, old.entries, old.skipped)
                    &&& has_room(old.entries)
                    &&& leads_up(old.entries, old.next_id)
                } else {
                    before is None
                }
                &&& match result {
                    Err((_, error)) => {
                        &&& old.next_id == u32::MAX
                        &&& errors::fails_with(
                            error,
                            ErrorKind::InvalidData,
                            "directory identity overflow"@,
                        )
                        &&& now == if lacks_room(old, entry) {
                            emptied(old)
                        } else {
                            old
                        }
                    },
                    Ok(added) => {
                        &&& old.next_id < u32::MAX
                        &&& if due_at_once(old, entry) {
                            &&& holds_out(added.due, full.entries, full.skipped)
                            &&& has_room(full.entries)
                            &&& leads_up(full.entries, full.next_id)
                            &&& now == emptied(full)
                        } else {
                            added.due is None && now == full
                        }
                    },
                }
            }),
    {
        let names: usize = entry.original_name.len();
        let paths: usize = entry.path.len();
        let short = names <= MAX_BATCH_BYTES && paths <= MAX_BATCH_BYTES;
        let estimated: usize = if short {
            64 + 2 * (names + paths)
        } else {
            MAX_BATCH_BYTES
        };
        assert(short ==> estimated == estimate(entry));
        assert(!short ==> estimate(entry) > MAX_BATCH_BYTES);
        proof {
            lemma_estimates_positive(self.entries@);
        }
        let mut before: Option<OutBatch> = None;
        let moves = self.entries.len() > 0 && (self.batch_bytes > MAX_BATCH_BYTES || estimated
            > MAX_BATCH_BYTES - self.batch_bytes);
        if moves {
            before = Some(self.take());
        }
        let ghost base = self.entries@;
        if self.next_id == u32::MAX {
            return Err(
                (before, IoError::new(ErrorKind::InvalidData, "directory identity overflow")),
            );
        }
        let first = self.next_id == 1;
        self.entries.push(entry);
        self.batch_bytes = self.batch_bytes + estimated;
        self.next_id = self.next_id + 1;
        proof {
            assert(self.entries@.drop_last() =~= base);
            assert(estimates(self.entries@) == estimates(base) + estimate(entry));
            assert(leads_up(self.entries@, self.next_id));
        }
        let mut due: Option<OutBatch> = None;
        if first || self.entries.len() >= MAX_BATCH_ITEMS {
            let mut entries: Vec<FileEntry> = Vec::new();
            std::mem::swap(&mut entries, &mut self.entries);
            due = Some(OutBatch { entries, skipped: self.skipped });
            self.batch_bytes = 13;
            self.skipped = 0;
            assert(self.entries@ =~= Seq::empty());
        }
        Ok(Added { before, due })
    }
}

proof fn lemma_estimates_positive(entries: Seq<FileEntry>)
    ensures
        estimates(entries) >= 64 * entries.len(),
    decreases entries.len(),
{
    if entries.len() > 0 {
        lemma_estimates_positive(entries.drop_last());
    }
}

proof fn lemma_entry_size(entry: FileEntry)
    requires
        entry::entry_sendable(entry.data()),
    ensures
        directory::numbered_out(NumberedData { id: entry.id.0, entry: entry.data() }).len()
            <= estimate(entry),
{
    let data = entry.data();
    assert(bytes::bytes32(entry.id.0).len() == 4);
    assert(codec::units_out(data.name).len() == 4 + 2 * data.name.len());
    assert(codec::units_out(data.path).len() == 4 + 2 * data.path.len());
    assert(codec::optional_u64_out(data.size).len() <= 9);
    assert(codec::time_out(data.modified).len() <= 13);
    assert(codec::time_out(data.created).len() <= 13);
}

proof fn lemma_list_size(entries: Seq<FileEntry>)
    requires
        forall|i: int|
            0 <= i < entries.len() ==> entry::entry_sendable((#[trigger] entries[i]).data()),
    ensures
        codec::list_out(
            directory::numbered_writer(),
            directory::numbered_data(entries),
        ).len() <= estimates(entries),
    decreases entries.len(),
{
    if entries.len() > 0 {
        let before = entries.drop_last();
        assert forall|i: int| 0 <= i < before.len() implies entry::entry_sendable(
            (#[trigger] before[i]).data(),
        ) by {
            assert(before[i] == entries[i]);
        }
        lemma_list_size(before);
        assert(entry::entry_sendable(entries[entries.len() - 1].data()));
        lemma_entry_size(entries.last());
        assert(directory::numbered_data(entries).drop_last() =~= directory::numbered_data(before));
    }
}

/// Every batch that is given out can be sent, as long as the names and paths of its entries can.
pub proof fn law_batches_can_be_sent(entries: Seq<FileEntry>, skipped: usize)
    requires
        has_room(entries),
        forall|i: int|
            0 <= i < entries.len() ==> entry::entry_sendable((#[trigger] entries[i]).data()),
    ensures
        directory::batch_fault(
            BatchData {
                entries: directory::numbered_data(entries),
                skipped: skipped as nat,
                done: false,
            },
        ) is None,
{
    let data = directory::numbered_data(entries);
    lemma_list_size(entries);
    assert(estimates(entries) <= MAX_BATCH_BYTES - 13) by {
        if entries.len() == 1 {
            assert(estimates(entries.drop_last()) == 0);
            assert(entry::entry_sendable(entries[0].data()));
            assert(entries.last() == entries[0]);
        }
    }
    assert forall|i: int| 0 <= i < data.len() implies directory::numbered_fits()(
        #[trigger] data[i],
    ) by {
        assert(entry::entry_sendable(entries[i].data()));
    }
    codec::lemma_list_no_fault(
        directory::numbered_writer(),
        directory::numbered_fits(),
        13,
        MAX_BATCH_BYTES as nat,
        data,
    );
}

// ---- from one end to the other ----

/// What the sending end has gathered, and the batches that it has given out.
pub struct Sending {
    pub gathered: Gathered,
    pub sent: Seq<BatchData>,
}

/// What is done at the sending end: an entry is added, one is counted that cannot be read, or what
/// was gathered is given out because it is due.
pub enum SendStep {
    Add { entry: FileEntry },
    Skip,
    Take,
}

pub open spec fn batch_of(gathered: Gathered) -> BatchData {
    BatchData {
        entries: directory::numbered_data(gathered.entries),
        skipped: gathered.skipped as nat,
        done: false,
    }
}

pub open spec fn given_out(sending: Sending) -> Sending {
    Sending {
        gathered: emptied(sending.gathered),
        sent: sending.sent.push(batch_of(sending.gathered)),
    }
}

/// The sending end after a step.
pub open spec fn after_step(sending: Sending, step: SendStep) -> Sending {
    match step {
        SendStep::Take => given_out(sending),
        SendStep::Skip => Sending {
            gathered: Gathered {
                skipped: entry::one_more(sending.gathered.skipped),
                ..sending.gathered
            },
            ..sending
        },
        SendStep::Add { entry } => {
            let room = if lacks_room(sending.gathered, entry) {
                given_out(sending)
            } else {
                sending
            };
            let full = Sending { gathered: joined(sending.gathered, entry), sent: room.sent };
            if due_at_once(sending.gathered, entry) {
                given_out(full)
            } else {
                full
            }
        },
    }
}

pub open spec fn after_steps(steps: Seq<SendStep>) -> Sending
    decreases steps.len(),
{
    if steps.len() == 0 {
        Sending {
            gathered: Gathered { entries: Seq::empty(), skipped: 0, next_id: 1 },
            sent: Seq::empty(),
        }
    } else {
        after_step(after_steps(steps.drop_last()), steps.last())
    }
}

/// Every entry was added under the number that it is to have, and none beyond the last number.
pub open spec fn proper(steps: Seq<SendStep>) -> bool
    decreases steps.len(),
{
    steps.len() == 0 || (proper(steps.drop_last()) && match steps.last() {
        SendStep::Add { entry } => {
            let next_id = after_steps(steps.drop_last()).gathered.next_id;
            entry.id.0 == next_id && next_id < u32::MAX
        },
        _ => true,
    })
}

/// The entries that were added, in their order.
pub open spec fn added_entries(steps: Seq<SendStep>) -> Seq<FileEntry>
    decreases steps.len(),
{
    if steps.len() == 0 {
        Seq::empty()
    } else {
        match steps.last() {
            SendStep::Add { entry } => added_entries(steps.drop_last()).push(entry),
            _ => added_entries(steps.drop_last()),
        }
    }
}

pub open spec fn skip_count(steps: Seq<SendStep>) -> nat
    decreases steps.len(),
{
    if steps.len() == 0 {
        0
    } else {
        skip_count(steps.drop_last()) + if steps.last() is Skip {
            1nat
        } else {
            0nat
        }
    }
}

/// All batches of a folder: those given out on the way, what is left at its end, and the empty
/// batch that ends the stream.
pub open spec fn all_sent(steps: Seq<SendStep>) -> Seq<BatchData> {
    let last = after_steps(steps);
    let rest = if last.gathered.entries.len() > 0 || last.gathered.skipped > 0 {
        given_out(last)
    } else {
        last
    };
    rest.sent.push(BatchData { entries: Seq::empty(), skipped: 0, done: true })
}

proof fn lemma_one_more_batch(batches: Seq<BatchData>, batch: BatchData)
    ensures
        all_entries(batches.push(batch)) == all_entries(batches) + batch.entries,
        total_skipped(batches.push(batch)) == total_skipped(batches) + batch.skipped,
{
    assert(batches.push(batch).drop_last() =~= batches);
}

/// What the sending end holds is what was put into it.
spec fn accounts_for(sending: Sending, entries: Seq<FileEntry>, skipped: nat) -> bool {
    &&& all_entries(sending.sent) + directory::numbered_data(sending.gathered.entries)
        == directory::numbered_data(entries)
    &&& total_skipped(sending.sent) + sending.gathered.skipped == skipped
    &&& forall|i: int| 0 <= i < sending.sent.len() ==> !(#[trigger] sending.sent[i]).done
}

proof fn lemma_given_out(sending: Sending, entries: Seq<FileEntry>, skipped: nat)
    requires
        accounts_for(sending, entries, skipped),
    ensures
        accounts_for(given_out(sending), entries, skipped),
{
    let after = given_out(sending);
    lemma_one_more_batch(sending.sent, batch_of(sending.gathered));
    assert(directory::numbered_data(after.gathered.entries) =~= Seq::empty());
    assert(all_entries(after.sent) + directory::numbered_data(after.gathered.entries)
        =~= all_entries(sending.sent) + directory::numbered_data(sending.gathered.entries));
    assert forall|i: int| 0 <= i < after.sent.len() implies !(#[trigger] after.sent[i]).done by {
        if i < sending.sent.len() {
            assert(after.sent[i] == sending.sent[i]);
        }
    }
}

proof fn lemma_steps_are_accounted_for(steps: Seq<SendStep>)
    requires
        proper(steps),
        steps.len() <= usize::MAX,
    ensures
        accounts_for(after_steps(steps), added_entries(steps), skip_count(steps)),
        after_steps(steps).gathered.next_id == added_entries(steps).len() + 1,
        forall|i: int|
            0 <= i < added_entries(steps).len() ==> (#[trigger] added_entries(steps)[i]).id.0 == i
                + 1,
        skip_count(steps) <= steps.len(),
    decreases steps.len(),
{
    if steps.len() == 0 {
        assert(all_entries(after_steps(steps).sent) + directory::numbered_data(
            after_steps(steps).gathered.entries,
        ) =~= directory::numbered_data(added_entries(steps)));
    } else {
        let earlier = steps.drop_last();
        lemma_steps_are_accounted_for(earlier);
        let before = after_steps(earlier);
        let known = added_entries(earlier);
        match steps.last() {
            SendStep::Take => {
                lemma_given_out(before, known, skip_count(earlier));
            },
            SendStep::Skip => {
                assert(before.gathered.skipped <= skip_count(earlier));
            },
            SendStep::Add { entry } => {
                let more = added_entries(steps);
                let room = if lacks_room(before.gathered, entry) {
                    given_out(before)
                } else {
                    before
                };
                if lacks_room(before.gathered, entry) {
                    lemma_given_out(before, known, skip_count(earlier));
                }
                let full = Sending { gathered: joined(before.gathered, entry), sent: room.sent };
                assert(directory::numbered_data(full.gathered.entries)
                    =~= directory::numbered_data(room.gathered.entries).push(
                    NumberedData { id: entry.id.0, entry: entry.data() },
                ));
                assert(directory::numbered_data(more) =~= directory::numbered_data(known).push(
                    NumberedData { id: entry.id.0, entry: entry.data() },
                ));
                assert(all_entries(full.sent) + directory::numbered_data(full.gathered.entries)
                    =~= directory::numbered_data(more));
                assert(accounts_for(full, more, skip_count(steps)));
                if due_at_once(before.gathered, entry) {
                    lemma_given_out(full, more, skip_count(steps));
                }
                assert forall|i: int| 0 <= i < more.len() implies (#[trigger] more[i]).id.0 == i
                    + 1 by {
                    if i < known.len() {
                        assert(more[i] == known[i]);
                    }
                }
            },
        }
    }
}

/// What one end sends of a folder, the other end receives: all entries that were added, in their
/// order and none twice, the number of those that could not be read, and that it was all.
pub proof fn law_what_is_sent_is_received(steps: Seq<SendStep>)
    requires
        proper(steps),
        steps.len() <= usize::MAX,
    ensures
        received(all_sent(steps)) == Ok::<Received, Fault>(
            Received {
                next_id: (added_entries(steps).len() + 1) as u32,
                skipped: skip_count(steps),
                completed: true,
            },
        ),
        all_entries(all_sent(steps)) == directory::numbered_data(added_entries(steps)),
{
    lemma_steps_are_accounted_for(steps);
    let last = after_steps(steps);
    let entries = added_entries(steps);
    let all = directory::numbered_data(entries);
    let rest = if last.gathered.entries.len() > 0 || last.gathered.skipped > 0 {
        given_out(last)
    } else {
        last
    };
    if last.gathered.entries.len() > 0 || last.gathered.skipped > 0 {
        lemma_given_out(last, entries, skip_count(steps));
    }
    assert(rest.gathered.entries.len() == 0 && rest.gathered.skipped == 0);
    assert(all_entries(rest.sent) =~= all_entries(rest.sent) + directory::numbered_data(
        rest.gathered.entries,
    ));
    assert forall|i: int| 0 <= i < all.len() implies (#[trigger] all[i]).id == i + 1 by {
        assert(all[i].id == entries[i].id.0);
    }
    law_numbered_batches_are_received(rest.sent);
    let end = BatchData { entries: Seq::empty(), skipped: 0, done: true };
    lemma_one_more_batch(rest.sent, end);
    assert(all_sent(steps).drop_last() =~= rest.sent);
    assert(all_entries(all_sent(steps)) =~= all);
}

/// How the sending of a folder ends.
#[derive(Debug, Clone, PartialEq, Eq)]
pub enum StreamEnd {
    Sent,
    Report(Vec<u8>),
    Failed,
}

/// An error of the folder is sent as the last frame. One of the transport is not: it cannot carry
/// another frame.
pub fn stream_directory(error: Option<&IoError>, transport_failed: bool) -> (end: StreamEnd)
    ensures
        match error {
            None => end is Sent,
            Some(error) => if transport_failed {
                end is Failed
            } else {
                end matches StreamEnd::Report(frame) && frame@ == directory::error_out(
                    directory::reported(*error),
                )
            },
        },
{
    match error {
        None => StreamEnd::Sent,
        Some(error) => if transport_failed {
            StreamEnd::Failed
        } else {
            StreamEnd::Report(encode_error(error))
        },
    }
}

pub const INVALID_FILE_ATTRIBUTES: u32 = 0xffff_ffff;

pub const ERROR_FILE_NOT_FOUND: i32 = 2;

pub const ERROR_PATH_NOT_FOUND: i32 = 3;

/// Whether a frame still waits to be taken, by the attributes of its file and, where it has none,
/// the system's error.
pub fn frame_slot_exists(attributes: u32, error: IoError) -> (result: Result<bool, IoError>)
    ensures
        result == if attributes != INVALID_FILE_ATTRIBUTES {
            Ok::<bool, IoError>(true)
        } else if error.code == Some(ERROR_FILE_NOT_FOUND) || error.code == Some(
            ERROR_PATH_NOT_FOUND,
        ) {
            Ok(false)
        } else {
            Err(error)
        },
{
    if attributes != INVALID_FILE_ATTRIBUTES {
        return Ok(true);
    }
    match error.code {
        Some(2) | Some(3) => Ok(false),
        _ => Err(error),
    }
}

// ---- laws of the two ends ----

/// Entries that are next in their numbers are handed out as they were sent, and the receiver then
/// awaits the number after them.
pub proof fn law_a_frame_hands_out_its_entries(
    receiver: &mut DirectoryReceiver,
    entries: &[FileEntry],
    skipped: usize,
    frame: Vec<u8>,
    received: &[u8],
    result: Result<Vec<FileEntry>, BatchError>,
)
    requires
        call_ensures(directory::encode_batch, (entries, skipped, false), Ok(frame)),
        forall|i: int|
            0 <= i < entries@.len() ==> codec::valid_time((#[trigger] entries@[i]).modified)
                && codec::valid_time(entries@[i].created) && entries@[i].id.0 == old(
                receiver,
            ).state().next_id + i,
        old(receiver).state().next_id + entries@.len() <= u32::MAX,
        old(receiver).state().skipped + skipped <= usize::MAX,
        !old(receiver).state().completed,
        received@ == frame@,
        call_ensures(DirectoryReceiver::frame, (receiver, received), result),
    ensures
        result matches Ok(taken) && taken@.len() == entries@.len() && forall|i: int|
            0 <= i < entries@.len() ==> directory::same_entry(#[trigger] taken@[i], entries@[i]),
        final(receiver).state().next_id == old(receiver).state().next_id + entries@.len(),
        final(receiver).state().skipped == old(receiver).state().skipped + skipped,
        !final(receiver).state().completed,
{
    let data = BatchData {
        entries: directory::numbered_data(entries@),
        skipped: skipped as nat,
        done: false,
    };
    directory::lemma_batch_is_valid(entries, skipped, false, frame);
    directory::law_batch_round_trip(data);
    let first = old(receiver).state().next_id;
    assert forall|i: int| 0 <= i < data.entries.len() implies (#[trigger] data.entries[i]).id
        == first + i by {
        assert(data.entries[i].id == entries@[i].id.0);
    }
    lemma_counted_ids(first, data.entries);
    directory::lemma_same_entries(result->Ok_0@, entries@);
}

/// An entry out of its turn is refused, and nothing is taken of its frame.
pub proof fn law_a_gap_is_refused(
    receiver: &mut DirectoryReceiver,
    entries: &[FileEntry],
    skipped: usize,
    frame: Vec<u8>,
    received: &[u8],
    result: Result<Vec<FileEntry>, BatchError>,
)
    requires
        entries@.len() > 0,
        entries@[0].id.0 != old(receiver).state().next_id,
        call_ensures(directory::encode_batch, (entries, skipped, false), Ok(frame)),
        forall|i: int|
            0 <= i < entries@.len() ==> codec::valid_time((#[trigger] entries@[i]).modified)
                && codec::valid_time(entries@[i].created),
        received@ == frame@,
        call_ensures(DirectoryReceiver::frame, (receiver, received), result),
    ensures
        result matches Err(BatchError::Invalid(_)),
        final(receiver).state() == old(receiver).state(),
{
    let data = BatchData {
        entries: directory::numbered_data(entries@),
        skipped: skipped as nat,
        done: false,
    };
    directory::lemma_batch_is_valid(entries, skipped, false, frame);
    directory::law_batch_round_trip(data);
    assert(data.entries[0].id == entries@[0].id.0);
    lemma_wrong_first(old(receiver).state().next_id, data.entries);
}

proof fn lemma_wrong_first(first: u32, entries: Seq<NumberedData>)
    requires
        entries.len() > 0,
        entries[0].id != first,
    ensures
        after_ids(first, entries) is Err,
    decreases entries.len(),
{
    if entries.len() > 1 {
        lemma_wrong_first(first, entries.drop_last());
    } else {
        assert(after_ids(first, entries.drop_last()) == Ok::<u32, Fault>(first));
    }
}

/// A stream is done only where the helper ended well and had sent its last batch; a helper that
/// ended otherwise has failed, and one that still runs is waited for until it has been silent for
/// as long as the limit.
pub proof fn law_a_stream_ends_once_complete(
    receiver: DirectoryReceiver,
    exit: Option<ExitReport>,
    idle_ms: u128,
    limit_ms: u64,
    step: StreamStep,
)
    requires
        call_ensures(DirectoryReceiver::settle, (&receiver, exit, idle_ms, limit_ms), step),
    ensures
        step is Done <==> (exit matches Some(report) && report.success
            && receiver.state().completed),
        step matches StreamStep::Done(skipped) ==> skipped == receiver.state().skipped as usize,
        step is Wait <==> exit is None && idle_ms < limit_ms,
{
}

/// What was gathered is given out whole: the same entries in their order and the count of what
/// could not be read, of which nothing is left behind.
pub proof fn law_taking_gives_out_all(batcher: &mut DirectoryBatcher, batch: OutBatch)
    requires
        call_ensures(DirectoryBatcher::take, (batcher,), batch),
    ensures
        batch.entries@ == old(batcher).state().entries,
        batch.skipped == old(batcher).state().skipped,
        final(batcher).state().entries.len() == 0,
        final(batcher).state().skipped == 0,
        final(batcher).state().next_id == old(batcher).state().next_id,
{
}

/// No entry is lost on adding: what was gathered and the entry are, in this order, in what is given
/// out and what stays.
pub proof fn law_adding_loses_nothing(
    batcher: &mut DirectoryBatcher,
    entry: FileEntry,
    added: Added,
)
    requires
        call_ensures(DirectoryBatcher::add, (batcher, entry), Ok(added)),
    ensures
        ({
            let first = match added.before {
                Some(batch) => batch.entries@,
                None => Seq::empty(),
            };
            let second = match added.due {
                Some(batch) => batch.entries@,
                None => Seq::empty(),
            };
            first + second + final(batcher).state().entries == old(batcher).state().entries.push(
                entry,
            )
        }),
        final(batcher).state().next_id == old(batcher).state().next_id + 1,
        old(batcher).state().next_id == 1 ==> added.due is Some,
        added.due matches Some(batch) ==> batch.entries@.len() > 0 && batch.entries@.last()
            == entry,
{
    let all = old(batcher).state().entries.push(entry);
    let first = match added.before {
        Some(batch) => batch.entries@,
        None => Seq::empty(),
    };
    let second = match added.due {
        Some(batch) => batch.entries@,
        None => Seq::empty(),
    };
    assert(first + second + final(batcher).state().entries =~= all);
}

/// Nothing is handed out before its time, and then everything that has gathered.
pub proof fn law_batches_are_due_in_time(
    batch: &mut DirectoryBatcher,
    elapsed_ms: u128,
    due: bool,
    taken: Option<OutBatch>,
)
    requires
        old(batch).well_formed(),
        call_ensures(DirectoryBatcher::is_due, (&*old(batch), elapsed_ms), due),
        call_ensures(DirectoryBatcher::take_due, (batch, elapsed_ms), taken),
    ensures
        due <==> elapsed_ms >= 100,
        taken is Some <==> due,
        taken matches Some(out) ==> out.entries@.len() == old(batch).state().entries.len()
            && out.skipped == old(batch).state().skipped && final(batch).state().entries.len() == 0,
        taken is None ==> final(batch).state() == old(batch).state(),
{
}

/// A slot is there where it has attributes, and not where the system says that it is not found; any
/// other error is an error.
pub proof fn law_a_missing_slot_is_no_error(
    attributes: u32,
    error: IoError,
    result: Result<bool, IoError>,
)
    requires
        call_ensures(frame_slot_exists, (attributes, error), result),
    ensures
        attributes != 0xffff_ffff ==> result == Ok::<bool, IoError>(true),
        attributes == 0xffff_ffff && (error.code == Some(2i32) || error.code == Some(3i32)) ==> result
            == Ok::<bool, IoError>(false),
        attributes == 0xffff_ffff && error.code != Some(2i32) && error.code != Some(3i32)
            ==> result == Err::<bool, IoError>(error),
{
}

/// A listing that failed is reported to the other end, unless that end is gone; and a skipped entry is
/// counted, with the numbers of the others unchanged.
pub proof fn law_skipped_entries_are_counted(
    batch: &mut DirectoryBatcher,
    next: u32,
    error: IoError,
    end: StreamEnd,
    gone: StreamEnd,
    fine: StreamEnd,
)
    requires
        old(batch).well_formed(),
        call_ensures(DirectoryBatcher::skip, (batch,), ()),
        call_ensures(DirectoryBatcher::next_id, (&*final(batch),), next),
        call_ensures(stream_directory, (Some(&error), false), end),
        call_ensures(stream_directory, (Some(&error), true), gone),
        call_ensures(stream_directory, (None::<&IoError>, false), fine),
    ensures
        final(batch).state().entries == old(batch).state().entries,
        next == old(batch).state().next_id,
        old(batch).state().skipped < usize::MAX ==> final(batch).state().skipped
            == old(batch).state().skipped + 1,
        end is Report,
        gone is Failed,
        fine is Sent,
{
}

} // verus!
