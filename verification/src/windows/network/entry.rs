//! Entries of a folder, and how they are sent.
use vstd::prelude::*;

use crate::errors::{ErrorKind, IoError};
use crate::text;
use crate::text::{decode_lossy, string_from_chars};
use crate::windows::network::codec;
use crate::windows::network::codec::{
    read_byte, read_optional_u64, read_system_time, read_units_at, write_optional_u64,
    write_system_time, write_units, Fault, Timestamp,
};
use crate::winpath;
use crate::winpath::parent_of;

verus! {

#[derive(Debug, Clone, Copy, PartialEq, Eq, Structural)]
pub struct EntryId(pub u32);

#[derive(Debug, Clone, Copy, PartialEq, Eq, Structural)]
pub enum EntryKind {
    Directory,
    File,
    Other,
}

/// What is known of the size of a folder.
#[derive(Debug, Clone, Copy, PartialEq, Eq, Structural)]
pub enum FolderSizeState {
    Unknown,
    NotIndexed,
}

/// Which entries are shown.
#[derive(Debug, Clone, Copy, PartialEq, Eq, Structural)]
pub struct FileVisibility {
    pub show_hidden: bool,
    pub show_system: bool,
}

#[derive(Debug, Clone, PartialEq, Eq)]
pub struct FileEntry {
    pub id: EntryId,
    pub original_name: Vec<u16>,
    pub display_name: String,
    pub path: Vec<u16>,
    pub kind: EntryKind,
    pub parent_display: String,
    pub size_bytes: Option<u64>,
    pub folder_size: FolderSizeState,
    pub modified: Option<Timestamp>,
    pub created: Option<Timestamp>,
}

/// The part of an entry that is sent.
pub struct EntryData {
    pub name: Seq<u16>,
    pub path: Seq<u16>,
    pub kind: EntryKind,
    pub size: Option<u64>,
    pub modified: Option<Timestamp>,
    pub created: Option<Timestamp>,
}

/// The parent of a path, as it is shown.
pub open spec fn parent_text(path: Seq<u16>) -> Seq<char> {
    match winpath::path_parent(path) {
        Some(parent) => text::utf16_lossy(parent),
        None => Seq::empty(),
    }
}

impl FileEntry {
    pub open spec fn data(self) -> EntryData {
        EntryData {
            name: self.original_name@,
            path: self.path@,
            kind: self.kind,
            size: self.size_bytes,
            modified: self.modified,
            created: self.created,
        }
    }

    /// The texts that show the entry are those of its name and of its path.
    pub open spec fn is_presented(self) -> bool {
        &&& self.display_name@ == text::utf16_lossy(self.original_name@)
        &&& self.parent_display@ == parent_text(self.path@)
    }
}

pub open spec fn entry_data(entries: Seq<FileEntry>) -> Seq<EntryData> {
    Seq::new(entries.len(), |i: int| entries[i].data())
}

/// The fields of an entry, as they are read.
#[derive(Debug, Clone, PartialEq, Eq)]
pub struct EntryFields {
    pub name: Vec<u16>,
    pub path: Vec<u16>,
    pub kind: EntryKind,
    pub size_bytes: Option<u64>,
    pub modified: Option<Timestamp>,
    pub created: Option<Timestamp>,
}

impl EntryFields {
    pub open spec fn data(self) -> EntryData {
        EntryData {
            name: self.name@,
            path: self.path@,
            kind: self.kind,
            size: self.size_bytes,
            modified: self.modified,
            created: self.created,
        }
    }
}

/// The entry that is shown for what is known of it.
pub fn present(fields: EntryFields, id: u32, folder_size: FolderSizeState) -> (entry: FileEntry)
    ensures
        entry.data() == fields.data(),
        entry.id == EntryId(id),
        entry.folder_size == folder_size,
        entry.is_presented(),
{
    let name_chars = decode_lossy(&fields.name);
    let display_name = string_from_chars(&name_chars);
    let parent_display = match parent_of(&fields.path) {
        Some(parent) => {
            let chars = decode_lossy(&parent);
            string_from_chars(&chars)
        },
        None => String::new(),
    };
    proof {
        if winpath::path_parent(fields.path@) is None {
            assert(parent_display@ =~= Seq::<char>::empty());
        }
    }
    FileEntry {
        id: EntryId(id),
        original_name: fields.name,
        display_name,
        path: fields.path,
        kind: fields.kind,
        parent_display,
        size_bytes: fields.size_bytes,
        folder_size,
        modified: fields.modified,
        created: fields.created,
    }
}

// ---- bytes ----

pub open spec fn kind_byte(kind: EntryKind) -> u8 {
    match kind {
        EntryKind::Directory => 0,
        EntryKind::File => 1,
        EntryKind::Other => 2,
    }
}

pub open spec fn kind_of(byte: u8) -> Option<EntryKind> {
    if byte == 0 {
        Some(EntryKind::Directory)
    } else if byte == 1 {
        Some(EntryKind::File)
    } else if byte == 2 {
        Some(EntryKind::Other)
    } else {
        None
    }
}

/// The bytes of an entry: its name, its path, its kind, its size and its times.
pub open spec fn entry_out(entry: EntryData) -> Seq<u8> {
    codec::units_out(entry.name) + codec::units_out(entry.path) + seq![kind_byte(entry.kind)]
        + codec::optional_u64_out(entry.size) + codec::time_out(entry.modified) + codec::time_out(
        entry.created,
    )
}

/// The name and the path are short enough to be sent.
pub open spec fn entry_sendable(entry: EntryData) -> bool {
    codec::sendable(entry.name) && codec::sendable(entry.path)
}

/// The entry arrives as it was sent.
pub open spec fn entry_valid(entry: EntryData) -> bool {
    entry_sendable(entry) && codec::valid_time(entry.modified) && codec::valid_time(entry.created)
}

/// The size and the times of the entry at a position.
pub open spec fn facts_at(b: Seq<u8>, at: int) -> Result<
    ((Option<u64>, Option<Timestamp>, Option<Timestamp>), int),
    Fault,
> {
    match codec::optional_u64_at(b, at) {
        Err(fault) => Err(fault),
        Ok((size, at)) => match codec::time_at(b, at) {
            Err(fault) => Err(fault),
            Ok((modified, at)) => match codec::time_at(b, at) {
                Err(fault) => Err(fault),
                Ok((created, at)) => Ok(((size, modified, created), at)),
            },
        },
    }
}

/// The kind of the entry at a position.
pub open spec fn kind_at(b: Seq<u8>, at: int) -> Result<(EntryKind, int), Fault> {
    match codec::byte_at(b, at) {
        Err(fault) => Err(fault),
        Ok((byte, at)) => match kind_of(byte) {
            Some(kind) => Ok((kind, at)),
            None => Err(codec::invalid("invalid entry kind"@)),
        },
    }
}

/// The entry at a position.
pub open spec fn entry_at(b: Seq<u8>, at: int) -> Result<(EntryData, int), Fault> {
    match codec::units_at(b, at) {
        Err(fault) => Err(fault),
        Ok((name, at)) => match codec::units_at(b, at) {
            Err(fault) => Err(fault),
            Ok((path, at)) => match kind_at(b, at) {
                Err(fault) => Err(fault),
                Ok((kind, at)) => match facts_at(b, at) {
                    Err(fault) => Err(fault),
                    Ok(((size, modified, created), at)) => Ok(
                        (EntryData { name, path, kind, size, modified, created }, at),
                    ),
                },
            },
        },
    }
}

proof fn lemma_six_pieces(
    b: Seq<u8>,
    first: Seq<u8>,
    second: Seq<u8>,
    third: u8,
    fourth: Seq<u8>,
    fifth: Seq<u8>,
    sixth: Seq<u8>,
)
    ensures
        ((b + first) + second).push(third) + fourth + fifth + sixth == b + (first + second + seq![
            third,
        ] + fourth + fifth + sixth),
{
    assert(((b + first) + second).push(third) + fourth + fifth + sixth =~= b + (first + second
        + seq![third] + fourth + fifth + sixth));
}

pub fn write_entry(b: &mut Vec<u8>, entry: &FileEntry) -> (result: Result<(), IoError>)
    ensures
        match result {
            Ok(_) => entry_sendable(entry.data()) && final(b)@ == old(b)@ + entry_out(entry.data()),
            Err(error) => !entry_sendable(entry.data()) && codec::is_fault(
                error,
                codec::too_long(),
            ),
        },
{
    if let Err(error) = write_units(b, &entry.original_name) {
        return Err(error);
    }
    if let Err(error) = write_units(b, &entry.path) {
        return Err(error);
    }
    match entry.kind {
        EntryKind::Directory => b.push(0),
        EntryKind::File => b.push(1),
        EntryKind::Other => b.push(2),
    }
    write_optional_u64(b, entry.size_bytes);
    write_system_time(b, entry.modified);
    write_system_time(b, entry.created);
    proof {
        lemma_six_pieces(
            old(b)@,
            codec::units_out(entry.original_name@),
            codec::units_out(entry.path@),
            kind_byte(entry.kind),
            codec::optional_u64_out(entry.size_bytes),
            codec::time_out(entry.modified),
            codec::time_out(entry.created),
        );
    }
    Ok(())
}

fn read_kind(b: &[u8], at: usize) -> (result: Result<(EntryKind, usize), IoError>)
    requires
        at <= b@.len(),
    ensures
        match (result, kind_at(b@, at as int)) {
            (Ok(read), Ok(found)) => read.0 == found.0 && read.1 == found.1 && read.1 <= b@.len(),
            (Err(error), Err(fault)) => codec::is_fault(error, fault),
            _ => false,
        },
{
    let (byte, at) = match read_byte(b, at) {
        Ok(read) => read,
        Err(error) => {
            return Err(error);
        },
    };
    if byte == 0 {
        Ok((EntryKind::Directory, at))
    } else if byte == 1 {
        Ok((EntryKind::File, at))
    } else if byte == 2 {
        Ok((EntryKind::Other, at))
    } else {
        Err(IoError::new(ErrorKind::InvalidData, "invalid entry kind"))
    }
}

fn read_facts(b: &[u8], at: usize) -> (result: Result<
    ((Option<u64>, Option<Timestamp>, Option<Timestamp>), usize),
    IoError,
>)
    requires
        at <= b@.len(),
    ensures
        match (result, facts_at(b@, at as int)) {
            (Ok(read), Ok(found)) => read.0 == found.0 && read.1 == found.1 && read.1 <= b@.len(),
            (Err(error), Err(fault)) => codec::is_fault(error, fault),
            _ => false,
        },
{
    let (size, at) = match read_optional_u64(b, at) {
        Ok(read) => read,
        Err(error) => {
            return Err(error);
        },
    };
    let (modified, at) = match read_system_time(b, at) {
        Ok(read) => read,
        Err(error) => {
            return Err(error);
        },
    };
    match read_system_time(b, at) {
        Ok((created, at)) => Ok(((size, modified, created), at)),
        Err(error) => Err(error),
    }
}

pub fn read_entry(b: &[u8], at: usize) -> (result: Result<(EntryFields, usize), IoError>)
    requires
        at <= b@.len(),
    ensures
        match (result, entry_at(b@, at as int)) {
            (Ok(read), Ok(found)) => read.0.data() == found.0 && read.1 == found.1 && read.1
                <= b@.len(),
            (Err(error), Err(fault)) => codec::is_fault(error, fault),
            _ => false,
        },
{
    let (name, at) = match read_units_at(b, at) {
        Ok(read) => read,
        Err(error) => {
            return Err(error);
        },
    };
    let (path, at) = match read_units_at(b, at) {
        Ok(read) => read,
        Err(error) => {
            return Err(error);
        },
    };
    let (kind, at) = match read_kind(b, at) {
        Ok(read) => read,
        Err(error) => {
            return Err(error);
        },
    };
    match read_facts(b, at) {
        Ok(((size_bytes, modified, created), at)) => Ok(
            (EntryFields { name, path, kind, size_bytes, modified, created }, at),
        ),
        Err(error) => Err(error),
    }
}

proof fn lemma_split_six(
    b: Seq<u8>,
    at: int,
    first: Seq<u8>,
    second: Seq<u8>,
    third: Seq<u8>,
    fourth: Seq<u8>,
    fifth: Seq<u8>,
    sixth: Seq<u8>,
)
    requires
        codec::holds(b, at, first + second + third + fourth + fifth + sixth),
    ensures
        codec::holds(b, at, first),
        codec::holds(b, at + first.len(), second),
        codec::holds(b, at + first.len() + second.len(), third),
        codec::holds(b, at + first.len() + second.len() + third.len(), fourth),
        codec::holds(b, at + first.len() + second.len() + third.len() + fourth.len(), fifth),
        codec::holds(
            b,
            at + first.len() + second.len() + third.len() + fourth.len() + fifth.len(),
            sixth,
        ),
{
    codec::lemma_split(b, at, first + second + third + fourth + fifth, sixth);
    codec::lemma_split(b, at, first + second + third + fourth, fifth);
    codec::lemma_split(b, at, first + second + third, fourth);
    codec::lemma_split(b, at, first + second, third);
    codec::lemma_split(b, at, first, second);
}

proof fn lemma_facts_at(b: Seq<u8>, at: int, entry: EntryData)
    requires
        codec::holds(b, at, codec::optional_u64_out(entry.size)),
        codec::holds(
            b,
            at + codec::optional_u64_out(entry.size).len(),
            codec::time_out(entry.modified),
        ),
        codec::holds(
            b,
            at + codec::optional_u64_out(entry.size).len() + codec::time_out(entry.modified).len(),
            codec::time_out(entry.created),
        ),
        codec::valid_time(entry.modified),
        codec::valid_time(entry.created),
    ensures
        facts_at(b, at) == Ok::<((Option<u64>, Option<Timestamp>, Option<Timestamp>), int), Fault>(
            (
                (entry.size, entry.modified, entry.created),
                at + codec::optional_u64_out(entry.size).len() + codec::time_out(
                    entry.modified,
                ).len() + codec::time_out(entry.created).len(),
            ),
        ),
{
    let p = at + codec::optional_u64_out(entry.size).len();
    let q = p + codec::time_out(entry.modified).len();
    codec::lemma_optional_u64_at(b, at, entry.size);
    codec::lemma_time_at(b, p, entry.modified);
    codec::lemma_time_at(b, q, entry.created);
}

/// An entry is read as it was written.
pub proof fn law_entry_round_trip(b: Seq<u8>, at: int, entry: EntryData)
    requires
        codec::holds(b, at, entry_out(entry)),
        entry_valid(entry),
    ensures
        entry_at(b, at) == Ok::<(EntryData, int), Fault>((entry, at + entry_out(entry).len())),
{
    let name = codec::units_out(entry.name);
    let path = codec::units_out(entry.path);
    let kind = seq![kind_byte(entry.kind)];
    lemma_split_six(
        b,
        at,
        name,
        path,
        kind,
        codec::optional_u64_out(entry.size),
        codec::time_out(entry.modified),
        codec::time_out(entry.created),
    );
    let p = at + name.len() + path.len();
    codec::lemma_units_at(b, at, entry.name);
    codec::lemma_units_at(b, at + name.len(), entry.path);
    assert(kind_at(b, p) == Ok::<(EntryKind, int), Fault>((entry.kind, p + 1))) by {
        codec::lemma_byte_at(b, p, kind_byte(entry.kind));
    }
    lemma_facts_at(b, p + 1, entry);
}

pub proof fn lemma_entry_extends(c: Seq<u8>, n: int, at: int)
    requires
        0 <= at,
        0 <= n <= c.len(),
    ensures
        entry_at(c.take(n), at) matches Ok((value, end)) ==> entry_at(c, at) == Ok::<
            (EntryData, int),
            Fault,
        >((value, end)) && at <= end <= n,
{
    codec::lemma_units_extend(c, n, at);
    if let Ok((name, p)) = codec::units_at(c.take(n), at) {
        codec::lemma_units_extend(c, n, p);
        if let Ok((path, q)) = codec::units_at(c.take(n), p) {
            codec::lemma_numbers_extend(c, n, q);
            codec::lemma_optionals_extend(c, n, q + 1);
            if let Ok((size, r)) = codec::optional_u64_at(c.take(n), q + 1) {
                codec::lemma_optionals_extend(c, n, r);
                if let Ok((modified, t)) = codec::time_at(c.take(n), r) {
                    codec::lemma_optionals_extend(c, n, t);
                }
            }
        }
    }
}

// ---- enumeration ----

pub const MAX_HELPER_ITEMS: usize = 4096;

pub const FILE_ATTRIBUTE_HIDDEN: u32 = 0x2;

pub const FILE_ATTRIBUTE_SYSTEM: u32 = 0x4;

/// Entries with these attributes are shown.
pub open spec fn shown(attributes: u32, visibility: FileVisibility) -> bool {
    &&& visibility.show_hidden || attributes & FILE_ATTRIBUTE_HIDDEN == 0
    &&& visibility.show_system || attributes & FILE_ATTRIBUTE_SYSTEM == 0
}

/// What the system says of one entry of a folder.
#[derive(Debug, Clone, PartialEq, Eq)]
pub struct FoundEntry {
    pub name: Vec<u16>,
    pub path: Vec<u16>,
    pub attributes: u32,
    pub is_dir: bool,
    pub is_file: bool,
    pub len: u64,
    pub modified: Option<Timestamp>,
    pub created: Option<Timestamp>,
}

/// What the walk through a folder meets: an entry, or one of which nothing can be read.
#[derive(Debug, Clone, PartialEq, Eq)]
pub enum Met {
    Entry(FoundEntry),
    Unreadable,
}

pub open spec fn found_data(found: FoundEntry) -> EntryData {
    EntryData {
        name: found.name@,
        path: found.path@,
        kind: if found.is_dir {
            EntryKind::Directory
        } else if found.is_file {
            EntryKind::File
        } else {
            EntryKind::Other
        },
        size: if found.is_file {
            Some(found.len)
        } else {
            None
        },
        modified: found.modified,
        created: found.created,
    }
}

/// What a walk through a folder has gathered.
#[derive(Debug, Clone, PartialEq, Eq)]
pub struct DirectoryListing {
    pub entries: Vec<FileEntry>,
    pub skipped: usize,
    pub truncated: bool,
}

pub open spec fn one_more(count: usize) -> usize {
    if count < usize::MAX {
        (count + 1) as usize
    } else {
        count
    }
}

impl DirectoryListing {
    pub fn new() -> (listing: Self)
        ensures
            listing.entries@.len() == 0,
            listing.skipped == 0,
            !listing.truncated,
    {
        DirectoryListing { entries: Vec::new(), skipped: 0, truncated: false }
    }

    /// Takes what the walk meets next, and says whether the walk goes on. A listing that is full
    /// takes nothing more and is truncated. An entry that cannot be read is counted, one that is
    /// not to be shown is passed over.
    pub fn offer(&mut self, met: Met, visibility: FileVisibility) -> (more: bool)
        ensures
            more == (old(self).entries@.len() < MAX_HELPER_ITEMS),
            final(self).truncated == (old(self).truncated || !more),
            final(self).skipped == if more && met is Unreadable {
                one_more(old(self).skipped)
            } else {
                old(self).skipped
            },
            match met {
                Met::Entry(found) if more && shown(found.attributes, visibility) => {
                    &&& final(self).entries@.len() == old(self).entries@.len() + 1
                    &&& final(self).entries@.drop_last() == old(self).entries@
                    &&& final(self).entries@.last().data() == found_data(found)
                    &&& final(self).entries@.last().id.0 == old(self).entries@.len() + 1
                    &&& final(self).entries@.last().folder_size == FolderSizeState::NotIndexed
                    &&& final(self).entries@.last().is_presented()
                },
                _ => final(self).entries@ == old(self).entries@,
            },
    {
        let count: usize = self.entries.len();
        if count >= MAX_HELPER_ITEMS {
            self.truncated = true;
            return false;
        }
        match met {
            Met::Unreadable => {
                self.skipped = self.skipped.saturating_add(1);
            },
            Met::Entry(found) => {
                let hidden = found.attributes & FILE_ATTRIBUTE_HIDDEN != 0;
                let system = found.attributes & FILE_ATTRIBUTE_SYSTEM != 0;
                if (visibility.show_hidden || !hidden) && (visibility.show_system || !system) {
                    let kind = if found.is_dir {
                        EntryKind::Directory
                    } else if found.is_file {
                        EntryKind::File
                    } else {
                        EntryKind::Other
                    };
                    let size_bytes = if found.is_file {
                        Some(found.len)
                    } else {
                        None
                    };
                    let fields = EntryFields {
                        name: found.name,
                        path: found.path,
                        kind,
                        size_bytes,
                        modified: found.modified,
                        created: found.created,
                    };
                    let entry = present(fields, (count + 1) as u32, FolderSizeState::NotIndexed);
                    self.entries.push(entry);
                    assert(self.entries@.drop_last() =~= old(self).entries@);
                }
            },
        }
        true
    }
}

// ---- laws of the listing ----

/// What was met is listed under what the system said of it: a folder as a folder, a file as a file
/// with its length, anything else as neither, each with its own name, path and times.
pub proof fn law_listed_as_met(
    listing: &mut DirectoryListing,
    found: FoundEntry,
    visibility: FileVisibility,
    more: bool,
)
    requires
        call_ensures(DirectoryListing::offer, (listing, Met::Entry(found), visibility), more),
        final(listing).entries@.len() > old(listing).entries@.len(),
    ensures
        ({
            let entry = final(listing).entries@.last();
            &&& entry.kind == EntryKind::Directory <==> found.is_dir
            &&& entry.kind == EntryKind::File <==> !found.is_dir && found.is_file
            &&& entry.kind == EntryKind::Other <==> !found.is_dir && !found.is_file
            &&& entry.original_name@ == found.name@
            &&& entry.path@ == found.path@
            &&& entry.size_bytes is Some <==> found.is_file
            &&& entry.size_bytes matches Some(size) ==> size == found.len
            &&& entry.modified == found.modified
            &&& entry.created == found.created
            &&& entry.id.0 == final(listing).entries@.len()
            &&& entry.display_name@ == text::utf16_lossy(found.name@)
        }),
{
}

/// While there is room, an entry is listed exactly when neither its being hidden nor its being a
/// system file speaks against it; what was listed before stays, and nothing is counted as unread.
pub proof fn law_hidden_entries_are_listed_on_request(
    listing: &mut DirectoryListing,
    found: FoundEntry,
    visibility: FileVisibility,
    more: bool,
)
    requires
        call_ensures(DirectoryListing::offer, (listing, Met::Entry(found), visibility), more),
        old(listing).entries@.len() < 4096,
    ensures
        ({
            let before = old(listing).entries@;
            let after = final(listing).entries@;
            let hidden = found.attributes & 0x2 != 0;
            let system = found.attributes & 0x4 != 0;
            &&& more
            &&& before.is_prefix_of(after)
            &&& after.len() == before.len() + 1 <==> (hidden ==> visibility.show_hidden) && (system
                ==> visibility.show_system)
            &&& after.len() == before.len() || after.len() == before.len() + 1
            &&& final(listing).skipped == old(listing).skipped
            &&& final(listing).truncated == old(listing).truncated
        }),
{
    assert(final(listing).entries@.len() == old(listing).entries@.len() + 1
        ==> final(listing).entries@.drop_last() == old(listing).entries@);
    assert(old(listing).entries@.is_prefix_of(old(listing).entries@));
}

/// An entry that cannot be read is counted and not listed; a listing of 4096 entries takes nothing
/// more, says that it is cut off, and ends the walk.
pub proof fn law_listings_are_bounded(
    listing: &mut DirectoryListing,
    met: Met,
    visibility: FileVisibility,
    more: bool,
)
    requires
        call_ensures(DirectoryListing::offer, (listing, met, visibility), more),
    ensures
        more <==> old(listing).entries@.len() < 4096,
        !more ==> final(listing).truncated && final(listing).entries@ == old(listing).entries@
            && final(listing).skipped == old(listing).skipped,
        more && met is Unreadable ==> final(listing).entries@ == old(listing).entries@ && (
        old(listing).skipped < usize::MAX ==> final(listing).skipped == old(listing).skipped + 1),
        more ==> final(listing).truncated == old(listing).truncated,
{
}

/// An entry that was written is read back with every field as it was.
pub proof fn law_a_written_entry_is_read_back(
    out: &mut Vec<u8>,
    entry: FileEntry,
    sent: Result<(), IoError>,
    received: &[u8],
    read: Result<(EntryFields, usize), IoError>,
)
    requires
        call_ensures(write_entry, (out, &entry), sent),
        sent is Ok,
        codec::valid_time(entry.modified),
        codec::valid_time(entry.created),
        received@ == final(out)@,
        call_ensures(read_entry, (received, old(out)@.len() as usize), read),
        final(out)@.len() <= usize::MAX,
    ensures
        read matches Ok((fields, end)) && {
            &&& fields.name@ == entry.original_name@
            &&& fields.path@ == entry.path@
            &&& fields.kind == entry.kind
            &&& fields.size_bytes == entry.size_bytes
            &&& fields.modified == entry.modified
            &&& fields.created == entry.created
            &&& end == received@.len()
        },
{
    let at = old(out)@.len() as int;
    let piece = entry_out(entry.data());
    assert(received@.subrange(at, at + piece.len() as int) =~= piece);
    law_entry_round_trip(received@, at, entry.data());
}

/// An entry is shown with the fields that it was made from, under the number that it was given.
pub proof fn law_presenting_keeps_the_fields(
    fields: EntryFields,
    id: u32,
    folder_size: FolderSizeState,
    entry: FileEntry,
)
    requires
        call_ensures(present, (fields, id, folder_size), entry),
    ensures
        entry.id.0 == id,
        entry.original_name@ == fields.name@,
        entry.path@ == fields.path@,
        entry.kind == fields.kind,
        entry.size_bytes == fields.size_bytes,
        entry.modified == fields.modified,
        entry.created == fields.created,
        entry.folder_size == folder_size,
        entry.display_name@ == text::utf16_lossy(fields.name@),
        match winpath::path_parent(fields.path@) {
            Some(parent) => entry.parent_display@ == text::utf16_lossy(parent),
            None => entry.parent_display@.len() == 0,
        },
{
    assert(entry.data() == fields.data());
    assert(entry.data().name == entry.original_name@ && fields.data().name == fields.name@);
    assert(entry.data().path == entry.path@ && fields.data().path == fields.path@);
}

} // verus!
