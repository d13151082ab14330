//! Change notifications of a watched directory: their records, their pairing and their delivery.
use vstd::prelude::*;

use crate::bytes;
use crate::bytes::read_units;
use crate::errors;
use crate::errors::{ErrorKind, IoError};
use crate::winpath;
use crate::winpath::{join, path_eq, units_copy_all};

verus! {

pub const FILE_ACTION_ADDED: u32 = 1;

pub const FILE_ACTION_REMOVED: u32 = 2;

pub const FILE_ACTION_MODIFIED: u32 = 3;

pub const FILE_ACTION_RENAMED_OLD_NAME: u32 = 4;

pub const FILE_ACTION_RENAMED_NEW_NAME: u32 = 5;

/// The system's number for a call that was cancelled.
pub const ERROR_OPERATION_ABORTED: i32 = 995;

/// The system's number for a buffer that could not hold all changes.
pub const ERROR_NOTIFY_ENUM_DIR: i32 = 1022;

// ---- records ----

#[derive(Debug, Clone, PartialEq, Eq)]
pub struct RawNotification {
    pub action: u32,
    pub relative_path: Vec<u16>,
}

/// A notification as a value.
pub struct Notification {
    pub action: u32,
    pub path: Seq<u16>,
}

impl View for RawNotification {
    type V = Notification;

    open spec fn view(&self) -> Notification {
        Notification { action: self.action, path: self.relative_path@ }
    }
}

pub open spec fn notifications_of(raw: Seq<RawNotification>) -> Seq<Notification> {
    Seq::new(raw.len(), |i: int| raw[i]@)
}

pub enum RecordFault {
    Header,
    Name,
    Offset,
}

pub open spec fn fault_text(fault: RecordFault) -> Seq<char> {
    match fault {
        RecordFault::Header => "directory change record header is truncated"@,
        RecordFault::Name => "directory change record name is truncated"@,
        RecordFault::Offset => "directory change record offset is invalid"@,
    }
}

/// The notification in the record at a position whose header fits.
pub open spec fn record_at(b: Seq<u8>, at: int) -> Notification {
    let name = bytes::le32(b, at + 8);
    Notification {
        action: bytes::le32(b, at + 4),
        path: bytes::units_in(b.subrange(at + 12, at + 12 + name)),
    }
}

/// The notifications in the records from a position on, or the first fault that is met.
pub open spec fn records_from(b: Seq<u8>, at: int) -> Result<Seq<Notification>, RecordFault>
    decreases b.len() - at,
{
    if b.len() - at < 12 {
        Err(RecordFault::Header)
    } else if bytes::le32(b, at + 8) % 2 != 0 || b.len() - (at + 12) < bytes::le32(b, at + 8) {
        Err(RecordFault::Name)
    } else {
        let next = bytes::le32(b, at);
        if next == 0 {
            Ok(seq![record_at(b, at)])
        } else if next < 12 || at + next >= b.len() {
            Err(RecordFault::Offset)
        } else {
            match records_from(b, at + next) {
                Ok(rest) => Ok(seq![record_at(b, at)] + rest),
                Err(fault) => Err(fault),
            }
        }
    }
}

/// Reads the records that the system has written into a buffer.
pub fn parse_notifications(buffer: &[u8]) -> (parsed: Result<Vec<RawNotification>, IoError>)
    ensures
        match records_from(buffer@, 0) {
            Ok(records) => parsed is Ok && notifications_of(parsed->Ok_0@) == records,
            Err(fault) => parsed is Err && errors::fails_with(
                parsed->Err_0,
                ErrorKind::InvalidData,
                fault_text(fault),
            ),
        },
{
    let mut notifications: Vec<RawNotification> = Vec::new();
    let mut offset: usize = 0;
    let n: usize = buffer.len();
    loop
        invariant
            n == buffer@.len(),
            offset <= n,
            match records_from(buffer@, offset as int) {
                Ok(rest) => records_from(buffer@, 0) == Ok::<_, RecordFault>(
                    notifications_of(notifications@) + rest,
                ),
                Err(fault) => records_from(buffer@, 0) == Err::<Seq<Notification>, _>(fault),
            },
        decreases n - offset,
    {
        if n - offset < 12 {
            return Err(
                IoError::new(
                    ErrorKind::InvalidData,
                    "directory change record header is truncated",
                ),
            );
        }
        let next: u32 = bytes::read_u32(buffer, offset);
        let action: u32 = bytes::read_u32(buffer, offset + 4);
        let name_bytes: u32 = bytes::read_u32(buffer, offset + 8);
        let room: usize = n - (offset + 12);
        if name_bytes % 2 != 0 || room < name_bytes as usize {
            return Err(
                IoError::new(
                    ErrorKind::InvalidData,
                    "directory change record name is truncated",
                ),
            );
        }
        let name = read_units(buffer, offset + 12, (name_bytes / 2) as usize);
        let ghost before = notifications@;
        let notification = RawNotification { action, relative_path: name };
        assert(notification@ == record_at(buffer@, offset as int));
        notifications.push(notification);
        proof {
            assert(notifications_of(notifications@) =~= notifications_of(before).push(
                notification@,
            ));
            assert(notifications_of(before) + seq![notification@] =~= notifications_of(
                notifications@,
            ));
        }
        if next == 0 {
            return Ok(notifications);
        }
        if next < 12 || next as usize >= n - offset {
            return Err(
                IoError::new(
                    ErrorKind::InvalidData,
                    "directory change record offset is invalid",
                ),
            );
        }
        proof {
            match records_from(buffer@, offset + next) {
                Ok(rest) => {
                    assert(notifications_of(before) + (seq![notification@] + rest)
                        =~= notifications_of(notifications@) + rest);
                },
                Err(_) => {},
            }
        }
        offset = offset + next as usize;
    }
}

// ---- changes ----

#[derive(Debug, Clone, PartialEq, Eq, Hash)]
pub enum DirectoryChange {
    Added(Vec<u16>),
    Removed(Vec<u16>),
    Modified(Vec<u16>),
    Renamed { from: Vec<u16>, to: Vec<u16> },
}

/// A change as a value.
pub enum Change {
    Added(Seq<u16>),
    Removed(Seq<u16>),
    Modified(Seq<u16>),
    Renamed { from: Seq<u16>, to: Seq<u16> },
}

impl View for DirectoryChange {
    type V = Change;

    open spec fn view(&self) -> Change {
        match self {
            DirectoryChange::Added(path) => Change::Added(path@),
            DirectoryChange::Removed(path) => Change::Removed(path@),
            DirectoryChange::Modified(path) => Change::Modified(path@),
            DirectoryChange::Renamed { from, to } => Change::Renamed { from: from@, to: to@ },
        }
    }
}

pub open spec fn changes_of(raw: Seq<DirectoryChange>) -> Seq<Change> {
    Seq::new(raw.len(), |i: int| raw[i]@)
}

/// Both changes are of one kind and name the same paths.
pub open spec fn same_change(a: Change, b: Change) -> bool {
    match (a, b) {
        (Change::Added(x), Change::Added(y)) => winpath::same_path(x, y),
        (Change::Removed(x), Change::Removed(y)) => winpath::same_path(x, y),
        (Change::Modified(x), Change::Modified(y)) => winpath::same_path(x, y),
        (Change::Renamed { from: xf, to: xt }, Change::Renamed { from: yf, to: yt }) =>
            winpath::same_path(xf, yf) && winpath::same_path(xt, yt),
        _ => false,
    }
}

pub open spec fn has_change(changes: Seq<Change>, change: Change) -> bool {
    exists|i: int| 0 <= i < changes.len() && same_change(#[trigger] changes[i], change)
}

/// The changes with one more, unless the same one is there.
pub open spec fn with_change(changes: Seq<Change>, change: Change) -> Seq<Change> {
    if has_change(changes, change) {
        changes
    } else {
        changes.push(change)
    }
}

fn change_eq(a: &DirectoryChange, b: &DirectoryChange) -> (equal: bool)
    ensures
        equal == same_change(a@, b@),
{
    match (a, b) {
        (DirectoryChange::Added(x), DirectoryChange::Added(y)) => path_eq(
            x.as_slice(),
            y.as_slice(),
        ),
        (DirectoryChange::Removed(x), DirectoryChange::Removed(y)) => path_eq(
            x.as_slice(),
            y.as_slice(),
        ),
        (DirectoryChange::Modified(x), DirectoryChange::Modified(y)) => path_eq(
            x.as_slice(),
            y.as_slice(),
        ),
        (
            DirectoryChange::Renamed { from: xf, to: xt },
            DirectoryChange::Renamed { from: yf, to: yt },
        ) => path_eq(xf.as_slice(), yf.as_slice()) && path_eq(xt.as_slice(), yt.as_slice()),
        _ => false,
    }
}

/// Collects the changes of one delivery: renames are paired, repeated changes dropped.
#[derive(Debug)]
pub struct ChangeCoalescer {
    pub pending_rename: Option<Vec<u16>>,
    pub changes: Vec<DirectoryChange>,
}

/// What a coalescer holds: the old name of a rename whose new name is awaited, and the changes.
#[verifier::ext_equal]
pub struct Pending {
    pub rename: Option<Seq<u16>>,
    pub changes: Seq<Change>,
}

impl View for ChangeCoalescer {
    type V = Pending;

    open spec fn view(&self) -> Pending {
        Pending {
            rename: match self.pending_rename {
                Some(path) => Some(path@),
                None => None,
            },
            changes: changes_of(self.changes@),
        }
    }
}

pub open spec fn nothing_pending() -> Pending {
    Pending { rename: None, changes: Seq::empty() }
}

/// An old name whose new name never came counts as removed.
pub open spec fn flushed(p: Pending) -> Pending {
    match p.rename {
        Some(path) => Pending {
            rename: None,
            changes: with_change(p.changes, Change::Removed(path)),
        },
        None => p,
    }
}

/// The state after one more notification.
pub open spec fn noted(p: Pending, n: Notification) -> Pending {
    if n.action == FILE_ACTION_RENAMED_NEW_NAME {
        match p.rename {
            Some(from) => Pending {
                rename: None,
                changes: with_change(p.changes, Change::Renamed { from, to: n.path }),
            },
            None => Pending { changes: with_change(p.changes, Change::Added(n.path)), ..p },
        }
    } else {
        let q = flushed(p);
        if n.action == FILE_ACTION_ADDED {
            Pending { changes: with_change(q.changes, Change::Added(n.path)), ..q }
        } else if n.action == FILE_ACTION_REMOVED {
            Pending { changes: with_change(q.changes, Change::Removed(n.path)), ..q }
        } else if n.action == FILE_ACTION_MODIFIED {
            Pending { changes: with_change(q.changes, Change::Modified(n.path)), ..q }
        } else if n.action == FILE_ACTION_RENAMED_OLD_NAME {
            Pending { rename: Some(n.path), ..q }
        } else {
            q
        }
    }
}

/// The state after a series of notifications.
pub open spec fn all_noted(p: Pending, notifications: Seq<Notification>) -> Pending
    decreases notifications.len(),
{
    if notifications.len() == 0 {
        p
    } else {
        noted(all_noted(p, notifications.drop_last()), notifications.last())
    }
}

impl Default for ChangeCoalescer {
    fn default() -> (coalescer: Self)
        ensures
            coalescer@ == nothing_pending(),
    {
        Self::new()
    }
}

impl ChangeCoalescer {
    pub fn new() -> (coalescer: Self)
        ensures
            coalescer@ == nothing_pending(),
    {
        let coalescer = Self { pending_rename: None, changes: Vec::new() };
        assert(coalescer@ =~= nothing_pending());
        coalescer
    }

    fn push_change(&mut self, change: DirectoryChange)
        ensures
            final(self)@ == (Pending {
                changes: with_change(old(self)@.changes, change@),
                ..old(self)@
            }),
    {
        let mut i: usize = 0;
        while i < self.changes.len()
            invariant
                i <= self.changes@.len(),
                self@ == old(self)@,
                forall|j: int|
                    0 <= j < i ==> !same_change(#[trigger] self@.changes[j], change@),
            decreases self.changes@.len() - i,
        {
            if change_eq(&self.changes[i], &change) {
                assert(same_change(self@.changes[i as int], change@));
                return;
            }
            assert(self@.changes[i as int] == self.changes@[i as int]@);
            i += 1;
        }
        assert(!has_change(self@.changes, change@));
        self.changes.push(change);
        assert(changes_of(self.changes@) =~= old(self)@.changes.push(change@));
    }

    pub fn push(&mut self, notification: RawNotification)
        ensures
            final(self)@ == noted(old(self)@, notification@),
    {
        let action: u32 = notification.action;
        if action == FILE_ACTION_RENAMED_NEW_NAME {
            match self.pending_rename.take() {
                Some(from) => {
                    assert(self@ == Pending { rename: None, ..old(self)@ });
                    self.push_change(
                        DirectoryChange::Renamed { from, to: notification.relative_path },
                    );
                },
                None => {
                    assert(self@ == old(self)@);
                    self.push_change(DirectoryChange::Added(notification.relative_path));
                },
            }
            return;
        }
        self.flush_pending_rename();
        if action == FILE_ACTION_ADDED {
            self.push_change(DirectoryChange::Added(notification.relative_path));
        } else if action == FILE_ACTION_REMOVED {
            self.push_change(DirectoryChange::Removed(notification.relative_path));
        } else if action == FILE_ACTION_MODIFIED {
            self.push_change(DirectoryChange::Modified(notification.relative_path));
        } else if action == FILE_ACTION_RENAMED_OLD_NAME {
            self.pending_rename = Some(notification.relative_path);
        }
    }

    pub fn flush_pending_rename(&mut self)
        ensures
            final(self)@ == flushed(old(self)@),
    {
        match self.pending_rename.take() {
            Some(path) => {
                assert(self@ == Pending { rename: None, ..old(self)@ });
                self.push_change(DirectoryChange::Removed(path));
            },
            None => {},
        }
    }

    /// Hands the changes out; a rename that waits for its new name stays.
    pub fn take_changes(&mut self) -> (changes: Vec<DirectoryChange>)
        ensures
            changes_of(changes@) == old(self)@.changes,
            final(self)@ == (Pending { changes: Seq::empty(), ..old(self)@ }),
    {
        let mut changes: Vec<DirectoryChange> = Vec::new();
        std::mem::swap(&mut changes, &mut self.changes);
        assert(self@ =~= Pending { changes: Seq::empty(), ..old(self)@ });
        changes
    }

    /// Ends the collection; an old name that still waits counts as removed.
    pub fn finish(self) -> (changes: Vec<DirectoryChange>)
        ensures
            changes_of(changes@) == flushed(self@).changes,
    {
        let mut last = self;
        last.flush_pending_rename();
        last.changes
    }

    pub fn clear(&mut self)
        ensures
            final(self)@ == nothing_pending(),
    {
        self.pending_rename = None;
        self.changes.clear();
        assert(self@ =~= nothing_pending());
    }
}

// ---- paths below the root ----

pub open spec fn below(root: Seq<u16>, change: Change) -> Change {
    match change {
        Change::Added(path) => Change::Added(winpath::joined(root, path)),
        Change::Removed(path) => Change::Removed(winpath::joined(root, path)),
        Change::Modified(path) => Change::Modified(winpath::joined(root, path)),
        Change::Renamed { from, to } => Change::Renamed {
            from: winpath::joined(root, from),
            to: winpath::joined(root, to),
        },
    }
}

pub open spec fn all_below(root: Seq<u16>, changes: Seq<Change>) -> Seq<Change> {
    Seq::new(changes.len(), |i: int| below(root, changes[i]))
}

fn absolute_change(root: &[u16], change: &DirectoryChange) -> (absolute: DirectoryChange)
    ensures
        absolute@ == below(root@, change@),
{
    match change {
        DirectoryChange::Added(path) => DirectoryChange::Added(join(root, path.as_slice())),
        DirectoryChange::Removed(path) => DirectoryChange::Removed(join(root, path.as_slice())),
        DirectoryChange::Modified(path) => DirectoryChange::Modified(join(root, path.as_slice())),
        DirectoryChange::Renamed { from, to } => DirectoryChange::Renamed {
            from: join(root, from.as_slice()),
            to: join(root, to.as_slice()),
        },
    }
}

/// The changes with their paths below the root that is watched.
pub fn absolute_changes(root: &[u16], changes: &[DirectoryChange]) -> (absolute: Vec<
    DirectoryChange,
>)
    ensures
        changes_of(absolute@) == all_below(root@, changes_of(changes@)),
{
    let mut absolute: Vec<DirectoryChange> = Vec::new();
    let mut i: usize = 0;
    while i < changes.len()
        invariant
            i <= changes@.len(),
            absolute@.len() == i,
            forall|j: int|
                0 <= j < i ==> (#[trigger] absolute@[j])@ == below(root@, changes@[j]@),
        decreases changes@.len() - i,
    {
        absolute.push(absolute_change(root, &changes[i]));
        i += 1;
    }
    assert(changes_of(absolute@) =~= all_below(root@, changes_of(changes@)));
    absolute
}

// ---- the loop ----

#[derive(Debug, Clone, PartialEq, Eq)]
pub enum DirectoryWatchEvent {
    Changes { root: Vec<u16>, changes: Vec<DirectoryChange> },
    Overflow { root: Vec<u16> },
    Error { root: Vec<u16>, message: String },
}

/// An event as a value; its root is always the one that is watched.
pub enum WatchEvent {
    Changes(Seq<u16>, Seq<Change>),
    Overflow(Seq<u16>),
    Error(Seq<u16>, Seq<char>),
}

impl View for DirectoryWatchEvent {
    type V = WatchEvent;

    open spec fn view(&self) -> WatchEvent {
        match self {
            DirectoryWatchEvent::Changes { root, changes } => WatchEvent::Changes(
                root@,
                changes_of(changes@),
            ),
            DirectoryWatchEvent::Overflow { root } => WatchEvent::Overflow(root@),
            DirectoryWatchEvent::Error { root, message } => WatchEvent::Error(root@, message@),
        }
    }
}

/// What came of one attempt to read changes.
#[derive(Debug)]
pub enum WatchOutcome {
    /// The read could not be started.
    NotStarted(IoError),
    /// Waiting for the read failed.
    NotAwaited(IoError),
    /// The read ended in an error.
    Failed(IoError),
    /// The read delivered these bytes.
    Delivered(Vec<u8>),
}

/// What the loop does next: an event to send, and whether to read on. When sending fails the loop
/// ends in any case.
#[derive(Debug)]
pub struct WatchStep {
    pub event: Option<DirectoryWatchEvent>,
    pub read_on: bool,
}

pub open spec fn event_of(event: Option<DirectoryWatchEvent>) -> Option<WatchEvent> {
    match event {
        Some(event) => Some(event@),
        None => None,
    }
}

pub open spec fn was_cancelled(cancelled: bool, error: IoError) -> bool {
    cancelled || error.code == Some(ERROR_OPERATION_ABORTED)
}

/// The state, the event and whether to read on after a delivery of bytes.
pub open spec fn delivered(root: Seq<u16>, p: Pending, b: Seq<u8>) -> (
    Pending,
    Option<WatchEvent>,
    bool,
) {
    if b.len() == 0 {
        (nothing_pending(), Some(WatchEvent::Overflow(root)), true)
    } else {
        match records_from(b, 0) {
            Ok(records) => {
                let q = flushed(all_noted(p, records));
                let changes = all_below(root, q.changes);
                (Pending { changes: Seq::empty(), ..q }, if changes.len() > 0 {
                    Some(WatchEvent::Changes(root, changes))
                } else {
                    None
                }, true)
            },
            Err(fault) => (
                nothing_pending(),
                Some(WatchEvent::Error(root, fault_text(fault))),
                true,
            ),
        }
    }
}

/// The state, the event and whether to read on after one attempt to read.
pub open spec fn stepped(root: Seq<u16>, p: Pending, outcome: WatchOutcome, cancelled: bool) -> (
    Pending,
    Option<WatchEvent>,
    bool,
) {
    match outcome {
        WatchOutcome::NotStarted(error) => (p, if was_cancelled(cancelled, error) {
            None
        } else {
            Some(WatchEvent::Error(root, error.message@))
        }, false),
        WatchOutcome::NotAwaited(error) => (
            p,
            Some(WatchEvent::Error(root, error.message@)),
            false,
        ),
        WatchOutcome::Failed(error) => if was_cancelled(cancelled, error) {
            (p, None, false)
        } else if error.code == Some(ERROR_NOTIFY_ENUM_DIR) {
            (nothing_pending(), Some(WatchEvent::Overflow(root)), true)
        } else {
            (p, Some(WatchEvent::Error(root, error.message@)), false)
        },
        WatchOutcome::Delivered(b) => delivered(root, p, b@),
    }
}

fn is_cancelled(cancelled: bool, error: &IoError) -> (stop: bool)
    ensures
        stop == was_cancelled(cancelled, *error),
{
    if cancelled {
        return true;
    }
    match error.code {
        Some(code) => code == ERROR_OPERATION_ABORTED,
        None => false,
    }
}

fn error_event(root: &[u16], error: IoError) -> (event: DirectoryWatchEvent)
    ensures
        event@ == WatchEvent::Error(root@, error.message@),
{
    DirectoryWatchEvent::Error { root: units_copy_all(root), message: error.message }
}

fn deliver(coalescer: &mut ChangeCoalescer, root: &[u16], buffer: &[u8]) -> (step: WatchStep)
    ensures
        (final(coalescer)@, event_of(step.event), step.read_on) == delivered(
            root@,
            old(coalescer)@,
            buffer@,
        ),
{
    if buffer.len() == 0 {
        coalescer.clear();
        return WatchStep {
            event: Some(DirectoryWatchEvent::Overflow { root: units_copy_all(root) }),
            read_on: true,
        };
    }
    match parse_notifications(buffer) {
        Ok(notifications) => {
            let mut notifications = notifications;
            let ghost all = notifications_of(notifications@);
            let ghost mut done: int = 0;
            assert(all.subrange(0, 0) =~= Seq::<Notification>::empty());
            assert(notifications_of(notifications@) =~= all.subrange(0, all.len() as int));
            while notifications.len() > 0
                invariant
                    0 <= done <= all.len(),
                    notifications_of(notifications@) == all.subrange(done, all.len() as int),
                    coalescer@ == all_noted(old(coalescer)@, all.subrange(0, done)),
                decreases notifications@.len(),
            {
                let ghost rest = notifications@;
                let notification = notifications.remove(0);
                proof {
                    assert(notifications_of(rest).len() == all.len() - done);
                    assert(notifications_of(rest)[0] == notification@);
                    assert(all.subrange(done, all.len() as int)[0] == all[done]);
                    assert(all.subrange(0, done + 1).drop_last() =~= all.subrange(0, done));
                    assert(all.subrange(0, done + 1).last() == notification@);
                    assert(notifications_of(notifications@) =~= notifications_of(rest).subrange(
                        1,
                        rest.len() as int,
                    ));
                    assert(notifications_of(notifications@) =~= all.subrange(
                        done + 1,
                        all.len() as int,
                    ));
                    done = done + 1;
                }
                coalescer.push(notification);
            }
            proof {
                assert(all.subrange(done, all.len() as int).len() == 0);
                assert(all.subrange(0, done) =~= all);
            }
            coalescer.flush_pending_rename();
            let taken = coalescer.take_changes();
            let changes = absolute_changes(root, taken.as_slice());
            if changes.len() > 0 {
                WatchStep {
                    event: Some(
                        DirectoryWatchEvent::Changes { root: units_copy_all(root), changes },
                    ),
                    read_on: true,
                }
            } else {
                WatchStep { event: None, read_on: true }
            }
        },
        Err(error) => {
            coalescer.clear();
            WatchStep { event: Some(error_event(root, error)), read_on: true }
        },
    }
}

/// Decides what one attempt to read changes leads to.
pub fn watch_step(
    coalescer: &mut ChangeCoalescer,
    root: &[u16],
    outcome: WatchOutcome,
    cancelled: bool,
) -> (step: WatchStep)
    ensures
        (final(coalescer)@, event_of(step.event), step.read_on) == stepped(
            root@,
            old(coalescer)@,
            outcome,
            cancelled,
        ),
{
    match outcome {
        WatchOutcome::NotStarted(error) => if is_cancelled(cancelled, &error) {
            WatchStep { event: None, read_on: false }
        } else {
            WatchStep { event: Some(error_event(root, error)), read_on: false }
        },
        WatchOutcome::NotAwaited(error) => WatchStep {
            event: Some(error_event(root, error)),
            read_on: false,
        },
        WatchOutcome::Failed(error) => {
            if is_cancelled(cancelled, &error) {
                return WatchStep { event: None, read_on: false };
            }
            let overflow = match error.code {
                Some(code) => code == ERROR_NOTIFY_ENUM_DIR,
                None => false,
            };
            if overflow {
                coalescer.clear();
                WatchStep {
                    event: Some(DirectoryWatchEvent::Overflow { root: units_copy_all(root) }),
                    read_on: true,
                }
            } else {
                WatchStep { event: Some(error_event(root, error)), read_on: false }
            }
        },
        WatchOutcome::Delivered(buffer) => deliver(coalescer, root, buffer.as_slice()),
    }
}

/// The last event when the loop has ended: what is left, unless the watch was cancelled.
pub fn trailing_event(coalescer: ChangeCoalescer, root: &[u16], cancelled: bool) -> (event: Option<
    DirectoryWatchEvent,
>)
    ensures
        ({
            let changes = all_below(root@, flushed(coalescer@).changes);
            event_of(event) == if changes.len() > 0 && !cancelled {
                Some(WatchEvent::Changes(root@, changes))
            } else {
                None
            }
        }),
{
    let left = coalescer.finish();
    let changes = absolute_changes(root, left.as_slice());
    if changes.len() > 0 && !cancelled {
        Some(DirectoryWatchEvent::Changes { root: units_copy_all(root), changes })
    } else {
        None
    }
}

/// The path under which a directory is opened, closed by a NUL.
pub fn watch_path(path: &[u16]) -> (wide: Result<Vec<u16>, IoError>)
    ensures
        match wide {
            Ok(wide) => path@.len() > 0 && !path@.contains(0) && wide@ == path@.push(0),
            Err(error) => if path@.len() == 0 {
                errors::fails_with(error, ErrorKind::InvalidInput, "directory watch path is empty"@)
            } else {
                path@.contains(0) && errors::fails_with(
                    error,
                    ErrorKind::InvalidInput,
                    "directory watch path contains a null character"@,
                )
            },
        },
{
    if path.len() == 0 {
        return Err(IoError::new(ErrorKind::InvalidInput, "directory watch path is empty"));
    }
    if crate::wide::contains_unit(path, 0) {
        return Err(
            IoError::new(
                ErrorKind::InvalidInput,
                "directory watch path contains a null character",
            ),
        );
    }
    let mut wide = units_copy_all(path);
    wide.push(0);
    Ok(wide)
}

// ---- laws ----

pub open spec fn no_repeats(changes: Seq<Change>) -> bool {
    forall|i: int, j: int|
        0 <= i < j < changes.len() ==> !same_change(#[trigger] changes[i], #[trigger] changes[j])
}

proof fn lemma_with_change(changes: Seq<Change>, change: Change)
    requires
        no_repeats(changes),
    ensures
        no_repeats(with_change(changes, change)),
        changes.is_prefix_of(with_change(changes, change)),
        has_change(with_change(changes, change), change),
{
    if !has_change(changes, change) {
        let all = changes.push(change);
        assert forall|i: int, j: int| 0 <= i < j < all.len() implies !same_change(
            #[trigger] all[i],
            #[trigger] all[j],
        ) by {
            if j == changes.len() {
                assert(all[i] == changes[i]);
            }
        }
        lemma_same_change_reflexive(change);
        assert(same_change(all[changes.len() as int], change));
        assert(all.subrange(0, changes.len() as int) =~= changes);
    } else {
        assert(changes.subrange(0, changes.len() as int) =~= changes);
    }
}

proof fn lemma_same_change_reflexive(change: Change)
    ensures
        same_change(change, change),
{
}

/// A delivery reports no change twice, and a later notification takes back no earlier change.
pub proof fn law_changes_do_not_repeat(p: Pending, n: Notification)
    requires
        no_repeats(p.changes),
    ensures
        no_repeats(noted(p, n).changes),
        p.changes.is_prefix_of(noted(p, n).changes),
{
    assert(p.changes.subrange(0, p.changes.len() as int) =~= p.changes);
    match p.rename {
        Some(path) => {
            lemma_with_change(p.changes, Change::Removed(path));
            lemma_with_change(p.changes, Change::Renamed { from: path, to: n.path });
        },
        None => {},
    }
    let q = flushed(p);
    lemma_with_change(p.changes, Change::Added(n.path));
    lemma_with_change(q.changes, Change::Added(n.path));
    lemma_with_change(q.changes, Change::Removed(n.path));
    lemma_with_change(q.changes, Change::Modified(n.path));
    let last = noted(p, n).changes;
    if n.action != FILE_ACTION_RENAMED_NEW_NAME {
        assert(p.changes.is_prefix_of(q.changes));
        assert(q.changes.is_prefix_of(last)) by {
            assert(q.changes.subrange(0, q.changes.len() as int) =~= q.changes);
        }
        let k = p.changes.len() as int;
        assert(last.subrange(0, k) =~= last.subrange(0, q.changes.len() as int).subrange(0, k));
    }
}

/// An old name followed by its new name is reported as one rename.
pub proof fn law_rename_is_paired(p: Pending, from: Seq<u16>, to: Seq<u16>)
    requires
        p.rename is None,
    ensures
        ({
            let old_name = Notification { action: FILE_ACTION_RENAMED_OLD_NAME, path: from };
            let new_name = Notification { action: FILE_ACTION_RENAMED_NEW_NAME, path: to };
            noted(noted(p, old_name), new_name) == Pending {
                rename: None,
                changes: with_change(p.changes, Change::Renamed { from, to }),
            }
        }),
{
}

/// An old name that is followed by anything else, or by nothing, is reported as removed.
pub proof fn law_unpaired_rename_is_removed(p: Pending, path: Seq<u16>, next: Notification)
    requires
        no_repeats(p.changes),
        p.rename == Some(path),
        next.action != FILE_ACTION_RENAMED_NEW_NAME,
    ensures
        has_change(flushed(p).changes, Change::Removed(path)),
        flushed(p).changes.is_prefix_of(noted(p, next).changes),
        flushed(p).rename is None,
{
    lemma_with_change(p.changes, Change::Removed(path));
    let q = flushed(p);
    lemma_with_change(q.changes, Change::Added(next.path));
    lemma_with_change(q.changes, Change::Removed(next.path));
    lemma_with_change(q.changes, Change::Modified(next.path));
    assert(q.changes.subrange(0, q.changes.len() as int) =~= q.changes);
}

// ---- laws of the delivery ----

/// A new, removed or changed file is reported as just that: the notification's path is among the
/// changes under the kind of its action, and what it adds is of that kind, but for an old name whose
/// new name did not come. Nothing reported before is lost or altered.
pub proof fn law_changes_are_reported_as_they_happened(
    coalescer: &mut ChangeCoalescer,
    notification: RawNotification,
)
    requires
        call_ensures(ChangeCoalescer::push, (coalescer, notification), ()),
    ensures
        ({
            let before = old(coalescer).changes@;
            let after = final(coalescer).changes@;
            let path = notification.relative_path@;
            &&& before.len() <= after.len()
            &&& forall|i: int|
                0 <= i < before.len() ==> same_kind_and_paths(#[trigger] after[i], before[i])
            &&& notification.action == 1 ==> exists|i: int|
                0 <= i < after.len() && (#[trigger] after[i] matches DirectoryChange::Added(p)
                    && winpath::same_path(p@, path))
            &&& notification.action == 2 ==> exists|i: int|
                0 <= i < after.len() && (#[trigger] after[i] matches DirectoryChange::Removed(p)
                    && winpath::same_path(p@, path))
            &&& notification.action == 3 ==> exists|i: int|
                0 <= i < after.len() && (#[trigger] after[i] matches DirectoryChange::Modified(p)
                    && winpath::same_path(p@, path))
            &&& forall|i: int|
                before.len() <= i < after.len() ==> {
                    ||| old(coalescer).pending_rename matches Some(old_name) && notification.action
                        != 5 && (#[trigger] after[i] matches DirectoryChange::Removed(p) && p@
                        == old_name@)
                    ||| notification.action == 1 && (after[i] matches DirectoryChange::Added(p)
                        && p@ == path)
                    ||| notification.action == 2 && (after[i] matches DirectoryChange::Removed(p)
                        && p@ == path)
                    ||| notification.action == 3 && (after[i] matches DirectoryChange::Modified(p)
                        && p@ == path)
                    ||| notification.action == 5 && match old(coalescer).pending_rename {
                        Some(old_name) => after[i] matches DirectoryChange::Renamed { from, to }
                            && from@ == old_name@ && to@ == path,
                        None => after[i] matches DirectoryChange::Added(p) && p@ == path,
                    }
                }
            &&& notification.action == 4 ==> (final(coalescer).pending_rename matches Some(name)
                && name@ == path)
            &&& notification.action != 4 ==> final(coalescer).pending_rename is None
        }),
{
    let p = old(coalescer)@;
    let q = final(coalescer)@;
    let n = notification@;
    let before = old(coalescer).changes@;
    let after = final(coalescer).changes@;
    assert(p.changes.len() == before.len() && q.changes.len() == after.len());
    assert forall|i: int| 0 <= i < after.len() implies #[trigger] q.changes[i] == after[i]@ by {}
    assert forall|i: int| 0 <= i < before.len() implies #[trigger] p.changes[i] == before[i]@ by {}
    let f = flushed(p);
    match p.rename {
        Some(old_name) => {
            lemma_one_more(p.changes, Change::Removed(old_name));
            lemma_one_more(p.changes, Change::Renamed { from: old_name, to: n.path });
        },
        None => {},
    }
    lemma_one_more(p.changes, Change::Added(n.path));
    lemma_one_more(f.changes, Change::Added(n.path));
    lemma_one_more(f.changes, Change::Removed(n.path));
    lemma_one_more(f.changes, Change::Modified(n.path));
    assert forall|i: int| 0 <= i < before.len() implies same_kind_and_paths(
        #[trigger] after[i],
        before[i],
    ) by {
        assert(q.changes[i] == p.changes[i]);
        assert(after[i]@ == before[i]@);
    }
    if n.action == 1 {
        let i = choose|i: int|
            0 <= i < q.changes.len() && same_change(#[trigger] q.changes[i], Change::Added(n.path));
        assert(after[i]@ == q.changes[i]);
    }
    if n.action == 2 {
        let i = choose|i: int|
            0 <= i < q.changes.len() && same_change(
                #[trigger] q.changes[i],
                Change::Removed(n.path),
            );
        assert(after[i]@ == q.changes[i]);
    }
    if n.action == 3 {
        let i = choose|i: int|
            0 <= i < q.changes.len() && same_change(
                #[trigger] q.changes[i],
                Change::Modified(n.path),
            );
        assert(after[i]@ == q.changes[i]);
    }
    assert forall|i: int| before.len() <= i < after.len() implies {
        ||| old(coalescer).pending_rename matches Some(old_name) && notification.action != 5 && (
        #[trigger] after[i] matches DirectoryChange::Removed(p) && p@ == old_name@)
        ||| notification.action == 1 && (after[i] matches DirectoryChange::Added(p) && p@ == n.path)
        ||| notification.action == 2 && (after[i] matches DirectoryChange::Removed(p) && p@
            == n.path)
        ||| notification.action == 3 && (after[i] matches DirectoryChange::Modified(p) && p@
            == n.path)
        ||| notification.action == 5 && match old(coalescer).pending_rename {
            Some(old_name) => after[i] matches DirectoryChange::Renamed { from, to } && from@
                == old_name@ && to@ == n.path,
            None => after[i] matches DirectoryChange::Added(p) && p@ == n.path,
        }
    } by {
        assert(after[i]@ == q.changes[i]);
    }
}

/// Both changes are of one kind and name the very same paths.
pub open spec fn same_kind_and_paths(a: DirectoryChange, b: DirectoryChange) -> bool {
    match (a, b) {
        (DirectoryChange::Added(x), DirectoryChange::Added(y)) => x@ == y@,
        (DirectoryChange::Removed(x), DirectoryChange::Removed(y)) => x@ == y@,
        (DirectoryChange::Modified(x), DirectoryChange::Modified(y)) => x@ == y@,
        (
            DirectoryChange::Renamed { from: xf, to: xt },
            DirectoryChange::Renamed { from: yf, to: yt },
        ) => xf@ == yf@ && xt@ == yt@,
        _ => false,
    }
}

proof fn lemma_one_more(changes: Seq<Change>, change: Change)
    ensures
        has_change(with_change(changes, change), change),
        with_change(changes, change) == changes || with_change(changes, change) == changes.push(
            change,
        ),
        changes.len() <= with_change(changes, change).len() <= changes.len() + 1,
{
    if !has_change(changes, change) {
        assert(same_change(changes.push(change)[changes.len() as int], change));
    }
}

/// The same change is reported once in a delivery: a notification of a change that is there already
/// adds nothing.
pub proof fn law_a_repeated_change_adds_nothing(
    coalescer: &mut ChangeCoalescer,
    notification: RawNotification,
    at: int,
)
    requires
        call_ensures(ChangeCoalescer::push, (coalescer, notification), ()),
        old(coalescer).pending_rename is None,
        0 <= at < old(coalescer).changes@.len(),
        notification.action == 1 && (old(coalescer).changes@[at] matches DirectoryChange::Added(p)
            && p@ == notification.relative_path@) || notification.action == 2 && (old(
            coalescer,
        ).changes@[at] matches DirectoryChange::Removed(p) && p@ == notification.relative_path@)
            || notification.action == 3 && (old(coalescer).changes@[at] matches
            DirectoryChange::Modified(p) && p@ == notification.relative_path@),
    ensures
        final(coalescer).changes@.len() == old(coalescer).changes@.len(),
{
    let p = old(coalescer)@;
    assert(p.changes[at] == old(coalescer).changes@[at]@);
    assert(same_change(p.changes[at], old(coalescer).changes@[at]@));
    assert(final(coalescer)@.changes.len() == final(coalescer).changes@.len());
}

/// What is handed out is all that was collected, in its order; a second look finds nothing. A name
/// that waits for its new one is not lost.
pub proof fn law_changes_are_handed_out_once(
    coalescer: &mut ChangeCoalescer,
    changes: Vec<DirectoryChange>,
)
    requires
        call_ensures(ChangeCoalescer::take_changes, (coalescer,), changes),
    ensures
        changes@.len() == old(coalescer).changes@.len(),
        forall|i: int|
            0 <= i < changes@.len() ==> same_kind_and_paths(
                #[trigger] changes@[i],
                old(coalescer).changes@[i],
            ),
        final(coalescer).changes@.len() == 0,
        final(coalescer).pending_rename is Some <==> old(coalescer).pending_rename is Some,
        final(coalescer).pending_rename matches Some(name) ==> name@ == old(
            coalescer,
        ).pending_rename->0@,
{
    let before = old(coalescer)@.changes;
    assert(changes_of(changes@).len() == before.len());
    assert(final(coalescer)@.changes.len() == final(coalescer).changes@.len());
    assert forall|i: int| 0 <= i < changes@.len() implies same_kind_and_paths(
        #[trigger] changes@[i],
        old(coalescer).changes@[i],
    ) by {
        assert(changes_of(changes@)[i] == before[i]);
        assert(changes@[i]@ == old(coalescer).changes@[i]@);
    }
}

/// Changes are reported below the watched folder: each keeps its kind, and its paths are those of
/// the notification joined to the folder's.
pub proof fn law_changes_lie_below_the_root(
    root: &[u16],
    changes: &[DirectoryChange],
    absolute: Vec<DirectoryChange>,
    i: int,
)
    requires
        call_ensures(absolute_changes, (root, changes), absolute),
        0 <= i < changes@.len(),
    ensures
        absolute@.len() == changes@.len(),
        match (changes@[i], absolute@[i]) {
            (DirectoryChange::Added(p), DirectoryChange::Added(q)) => q@ == winpath::joined(
                root@,
                p@,
            ),
            (DirectoryChange::Removed(p), DirectoryChange::Removed(q)) => q@ == winpath::joined(
                root@,
                p@,
            ),
            (DirectoryChange::Modified(p), DirectoryChange::Modified(q)) => q@ == winpath::joined(
                root@,
                p@,
            ),
            (
                DirectoryChange::Renamed { from: pf, to: pt },
                DirectoryChange::Renamed { from: qf, to: qt },
            ) => qf@ == winpath::joined(root@, pf@) && qt@ == winpath::joined(root@, pt@),
            _ => false,
        },
{
    assert(changes_of(absolute@).len() == changes@.len());
    assert(changes_of(absolute@)[i] == all_below(root@, changes_of(changes@))[i]);
    assert(absolute@[i]@ == below(root@, changes@[i]@));
}

/// The bytes of one record, with the distance to the next one.
pub open spec fn record_out(next: u32, notification: RawNotification) -> Seq<u8> {
    let name = notification.relative_path@;
    bytes::bytes32(next) + bytes::bytes32(notification.action) + bytes::bytes32(
        (2 * name.len()) as u32,
    ) + bytes::unit_bytes(name)
}

/// A series of records as the system writes it.
pub open spec fn records_out(notifications: Seq<RawNotification>) -> Seq<u8>
    decreases notifications.len(),
{
    if notifications.len() == 0 {
        Seq::empty()
    } else if notifications.len() == 1 {
        record_out(0, notifications[0])
    } else {
        record_out(
            (12 + 2 * notifications[0].relative_path@.len()) as u32,
            notifications[0],
        ) + records_out(notifications.drop_first())
    }
}

proof fn lemma_record_out(b: Seq<u8>, at: int, next: u32, notification: RawNotification)
    requires
        0 <= at,
        notification.relative_path@.len() < 0x4000_0000,
        at + record_out(next, notification).len() <= b.len(),
        b.subrange(at, at + record_out(next, notification).len() as int) == record_out(
            next,
            notification,
        ),
    ensures
        bytes::le32(b, at) == next,
        bytes::le32(b, at + 8) == 2 * notification.relative_path@.len(),
        record_at(b, at) == notification@,
        record_out(next, notification).len() == 12 + 2 * notification.relative_path@.len(),
{
    let name = notification.relative_path@;
    let piece = record_out(next, notification);
    let head = b.subrange(0, at);
    let tail = b.subrange(at + piece.len() as int, b.len() as int);
    let one = bytes::bytes32(next);
    let two = bytes::bytes32(notification.action);
    let three = bytes::bytes32((2 * name.len()) as u32);
    let four = bytes::unit_bytes(name);
    assert(b =~= head + piece + tail);
    assert(b =~= head + one + (two + three + four + tail));
    bytes::lemma_le32(head, next, two + three + four + tail);
    assert(b =~= (head + one) + two + (three + four + tail));
    bytes::lemma_le32(head + one, notification.action, three + four + tail);
    assert(b =~= (head + one + two) + three + (four + tail));
    bytes::lemma_le32(head + one + two, (2 * name.len()) as u32, four + tail);
    assert(b.subrange(at + 12, at + 12 + 2 * name.len() as int) =~= four);
    bytes::law_units_round_trip(name);
}

proof fn lemma_records_out(b: Seq<u8>, at: int, notifications: Seq<RawNotification>)
    requires
        0 <= at,
        notifications.len() > 0,
        forall|i: int|
            0 <= i < notifications.len() ==> (#[trigger] notifications[i]).relative_path@.len()
                < 0x4000_0000,
        at + records_out(notifications).len() == b.len(),
        b.subrange(at, b.len() as int) == records_out(notifications),
    ensures
        records_from(b, at) == Ok::<_, RecordFault>(notifications_of(notifications)),
    decreases notifications.len(),
{
    let first = notifications[0];
    if notifications.len() == 1 {
        lemma_record_out(b, at, 0, first);
        assert(notifications_of(notifications) =~= seq![first@]);
    } else {
        let next = (12 + 2 * first.relative_path@.len()) as u32;
        let rest = notifications.drop_first();
        let piece = record_out(next, first);
        assert(b.subrange(at, at + piece.len() as int) =~= b.subrange(at, b.len() as int).subrange(
            0,
            piece.len() as int,
        ));
        assert((piece + records_out(rest)).subrange(0, piece.len() as int) =~= piece);
        lemma_record_out(b, at, next, first);
        assert(b.subrange(at + next, b.len() as int) =~= b.subrange(at, b.len() as int).subrange(
            piece.len() as int,
            b.len() - at,
        ));
        assert((piece + records_out(rest)).subrange(
            piece.len() as int,
            b.len() - at,
        ) =~= records_out(rest));
        assert forall|i: int| 0 <= i < rest.len() implies (#[trigger] rest[i]).relative_path@.len()
            < 0x4000_0000 by {
            assert(rest[i] == notifications[i + 1]);
        }
        lemma_records_out(b, at + next, rest);
        assert(rest.len() > 0);
        lemma_records_out_long(rest);
        assert(notifications_of(notifications) =~= seq![first@] + notifications_of(rest));
    }
}

proof fn lemma_records_out_long(notifications: Seq<RawNotification>)
    requires
        notifications.len() > 0,
    ensures
        records_out(notifications).len() >= 12,
{
}

/// A series of records is read as the notifications that the system wrote, each with its action and
/// its whole name, in their order.
pub proof fn law_records_are_read_as_written(
    notifications: Seq<RawNotification>,
    buffer: &[u8],
    parsed: Result<Vec<RawNotification>, IoError>,
)
    requires
        notifications.len() > 0,
        forall|i: int|
            0 <= i < notifications.len() ==> (#[trigger] notifications[i]).relative_path@.len()
                < 0x4000_0000,
        buffer@ == records_out(notifications),
        call_ensures(parse_notifications, (buffer,), parsed),
    ensures
        parsed matches Ok(read) && read@.len() == notifications.len() && forall|i: int|
            0 <= i < notifications.len() ==> (#[trigger] read@[i]).action == notifications[i].action
                && read@[i].relative_path@ == notifications[i].relative_path@,
{
    assert(buffer@.subrange(0, buffer@.len() as int) =~= buffer@);
    lemma_records_out(buffer@, 0, notifications);
    let read = parsed->Ok_0;
    assert(notifications_of(read@) == notifications_of(notifications));
    assert forall|i: int| 0 <= i < notifications.len() implies (#[trigger] read@[i]).action
        == notifications[i].action && read@[i].relative_path@ == notifications[i].relative_path@ by {
        assert(notifications_of(read@)[i] == notifications_of(notifications)[i]);
    }
}

/// When the system lost changes, or a delivery cannot be read, the owner is told so and what was
/// collected is dropped; the watch goes on. A failure ends it with its own words, and a watch that
/// was given up ends in silence.
pub proof fn law_lost_changes_are_not_passed_over(
    coalescer: &mut ChangeCoalescer,
    root: &[u16],
    outcome: WatchOutcome,
    cancelled: bool,
    step: WatchStep,
)
    requires
        call_ensures(watch_step, (coalescer, root, outcome, cancelled), step),
    ensures
        outcome matches WatchOutcome::Delivered(b) && b@.len() == 0 ==> {
            &&& step.read_on
            &&& step.event matches Some(DirectoryWatchEvent::Overflow { root: at }) && at@ == root@
            &&& final(coalescer).changes@.len() == 0
        },
        outcome is Delivered ==> step.read_on && final(coalescer).changes@.len() == 0
            && final(coalescer).pending_rename is None,
        outcome matches WatchOutcome::Failed(error) ==> {
            &&& cancelled || error.code == Some(995i32) ==> step.event is None && !step.read_on
            &&& !cancelled && error.code == Some(1022i32) ==> {
                &&& step.read_on
                &&& step.event matches Some(DirectoryWatchEvent::Overflow { root: at }) && at@
                    == root@
                &&& final(coalescer).changes@.len() == 0
            }
            &&& !cancelled && error.code != Some(995i32) && error.code != Some(1022i32) ==> {
                &&& !step.read_on
                &&& step.event matches Some(DirectoryWatchEvent::Error { root: at, message }) && at@
                    == root@ && message@ == error.message@
            }
        },
        outcome matches WatchOutcome::NotAwaited(error) ==> !step.read_on && (step.event matches
            Some(DirectoryWatchEvent::Error { root: at, message }) && at@ == root@ && message@
            == error.message@),
        outcome matches WatchOutcome::NotStarted(error) ==> !step.read_on && (step.event is None
            <==> cancelled || error.code == Some(995i32)),
{
    assert(final(coalescer)@.changes.len() == final(coalescer).changes@.len());
}

/// One delivered record of a new, removed or changed file reaches the owner as that change, at its
/// path below the watched folder.
pub proof fn law_a_record_reaches_the_owner(
    coalescer: &mut ChangeCoalescer,
    root: &[u16],
    notification: RawNotification,
    buffer: Vec<u8>,
    cancelled: bool,
    step: WatchStep,
)
    requires
        old(coalescer).changes@.len() == 0,
        old(coalescer).pending_rename is None,
        notification.relative_path@.len() < 0x4000_0000,
        buffer@ == record_out(0, notification),
        1 <= notification.action <= 4,
        call_ensures(
            watch_step,
            (coalescer, root, WatchOutcome::Delivered(buffer), cancelled),
            step,
        ),
    ensures
        step.event matches Some(DirectoryWatchEvent::Changes { root: at, changes }) && {
            let path = winpath::joined(root@, notification.relative_path@);
            &&& at@ == root@
            &&& changes@.len() == 1
            &&& notification.action == 1 ==> (changes@[0] matches DirectoryChange::Added(p) && p@
                == path)
            &&& notification.action == 2 ==> (changes@[0] matches DirectoryChange::Removed(p) && p@
                == path)
            &&& notification.action == 3 ==> (changes@[0] matches DirectoryChange::Modified(p) && p@
                == path)
            &&& notification.action == 4 ==> (changes@[0] matches DirectoryChange::Removed(p) && p@
                == path)
        },
{
    let b = buffer@;
    let series = seq![notification];
    assert(records_out(series) == b);
    assert(b.subrange(0, b.len() as int) =~= b);
    lemma_records_out(b, 0, series);
    let records = notifications_of(series);
    assert(records =~= seq![notification@]);
    let p = old(coalescer)@;
    assert(p.changes =~= Seq::<Change>::empty());
    assert(seq![notification@].drop_last() =~= Seq::<Notification>::empty());
    assert(all_noted(p, Seq::<Notification>::empty()) == p);
    assert(all_noted(p, records) == noted(p, notification@));
    let q = flushed(noted(p, notification@));
    assert(q.changes.len() == 1);
    let sent = all_below(root@, q.changes);
    assert(sent.len() == 1 && sent[0] == below(root@, q.changes[0]));
    let changes = step.event->Some_0->changes;
    assert(changes_of(changes@) == sent);
    assert(changes_of(changes@)[0] == changes@[0]@);
}

/// What is left when a watch ends is reported once more, unless the watch was cancelled or nothing is
/// left.
pub proof fn law_the_last_changes_are_reported(
    coalescer: ChangeCoalescer,
    root: &[u16],
    event: Option<DirectoryWatchEvent>,
    cancelled: Option<DirectoryWatchEvent>,
)
    requires
        call_ensures(trailing_event, (coalescer, root, false), event),
        call_ensures(trailing_event, (coalescer, root, true), cancelled),
    ensures
        cancelled is None,
        event is Some <==> coalescer.changes@.len() > 0 || coalescer.pending_rename is Some,
{
    let p = coalescer@;
    assert(p.changes.len() == coalescer.changes@.len());
    if p.rename is Some {
        lemma_one_more(p.changes, Change::Removed(p.rename->0));
    }
    let f = flushed(p);
    assert(all_below(root@, f.changes).len() == f.changes.len());
}

/// A path can be watched exactly where it is there and holds no mark.
pub proof fn law_watched_paths_hold_no_mark(path: &[u16], wide: Result<Vec<u16>, IoError>)
    requires
        call_ensures(watch_path, (path,), wide),
    ensures
        wide is Ok <==> path@.len() > 0 && !path@.contains(0),
        wide matches Ok(units) ==> units@ == path@.push(0),
{
}

} // verus!
