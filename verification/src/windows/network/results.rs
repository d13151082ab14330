//! Lists that the helper process sends back: places on the network, and the entries of a folder.
use vstd::prelude::*;

use crate::bytes;
use crate::bytes::push_u32;
use crate::errors;
use crate::errors::{ErrorKind, IoError};
use crate::text;
use crate::text::{decode_strict, encode_text, string_from_chars};
use crate::windows::network::codec;
use crate::windows::network::codec::{
    push_flag, read_byte, read_u32, read_u64, read_units_at, write_head, write_units, Fault,
};
use crate::windows::network::entry;
use crate::windows::network::entry::{
    present, read_entry, write_entry, DirectoryListing, EntryData, FileEntry, FolderSizeState,
    MAX_HELPER_ITEMS,
};
use crate::windows::network::helper;

verus! {

/// The largest result, in bytes.
pub const MAX_HELPER_BYTES: usize = 67_108_864;

// ---- places ----

#[derive(Debug, Clone, PartialEq, Eq)]
pub struct HelperItem {
    pub label: String,
    pub target: Vec<u16>,
    pub is_directory: bool,
}

pub struct ItemData {
    pub label: Seq<char>,
    pub target: Seq<u16>,
    pub is_directory: bool,
}

impl HelperItem {
    pub open spec fn data(self) -> ItemData {
        ItemData { label: self.label@, target: self.target@, is_directory: self.is_directory }
    }
}

pub open spec fn item_data(items: Seq<HelperItem>) -> Seq<ItemData> {
    Seq::new(items.len(), |i: int| items[i].data())
}

pub open spec fn item_out(item: ItemData) -> Seq<u8> {
    codec::units_out(text::utf16_encoded(item.label)) + codec::units_out(item.target) + seq![
        codec::flag_byte(item.is_directory),
    ]
}

pub open spec fn item_sendable(item: ItemData) -> bool {
    codec::sendable(text::utf16_encoded(item.label)) && codec::sendable(item.target)
}

pub open spec fn items_sendable(items: Seq<ItemData>) -> bool {
    forall|i: int| 0 <= i < items.len() ==> item_sendable(#[trigger] items[i])
}

pub open spec fn label_at(b: Seq<u8>, at: int) -> Result<(Seq<char>, int), Fault> {
    match codec::units_at(b, at) {
        Err(fault) => Err(fault),
        Ok((units, at)) => if text::valid_utf16(units) {
            Ok((text::utf16_lossy(units), at))
        } else {
            Err(codec::invalid("invalid UTF-16 label"@))
        },
    }
}

pub open spec fn item_at(b: Seq<u8>, at: int) -> Result<(ItemData, int), Fault> {
    match label_at(b, at) {
        Err(fault) => Err(fault),
        Ok((label, at)) => match codec::units_at(b, at) {
            Err(fault) => Err(fault),
            Ok((target, at)) => if at < b.len() {
                Ok((ItemData { label, target, is_directory: b[at] != 0 }, at + 1))
            } else {
                Err(codec::short("missing directory flag"@))
            },
        },
    }
}

pub open spec fn item_reader() -> spec_fn(Seq<u8>, int) -> Result<(ItemData, int), Fault> {
    |b: Seq<u8>, at: int| item_at(b, at)
}

pub open spec fn item_writer() -> spec_fn(ItemData) -> Seq<u8> {
    |item: ItemData| item_out(item)
}

pub open spec fn items_out(items: Seq<ItemData>) -> Seq<u8> {
    bytes::bytes32(items.len() as u32) + codec::list_out(item_writer(), items)
}

/// What keeps a list of places from being sent.
pub open spec fn items_fault(items: Seq<ItemData>) -> Option<Fault> {
    if items.len() > MAX_HELPER_ITEMS {
        Some(codec::invalid("too many helper items"@))
    } else if !items_sendable(items) {
        Some(codec::too_long())
    } else {
        None
    }
}

pub open spec fn items_at(b: Seq<u8>, at: int) -> Result<(Seq<ItemData>, int), Fault> {
    match codec::u32_at(b, at) {
        Err(fault) => Err(fault),
        Ok((count, at)) => if count > MAX_HELPER_ITEMS {
            Err(codec::invalid("too many helper items"@))
        } else {
            codec::list_at(item_reader(), b, at, count as nat)
        },
    }
}

pub open spec fn items_in(b: Seq<u8>) -> Result<Seq<ItemData>, Fault> {
    helper::alone(items_at(b, 0), b, "trailing network helper data"@)
}

fn write_item(b: &mut Vec<u8>, item: &HelperItem) -> (result: Result<(), IoError>)
    ensures
        match result {
            Ok(_) => item_sendable(item.data()) && final(b)@ == old(b)@ + item_out(item.data()),
            Err(error) => !item_sendable(item.data()) && codec::is_fault(error, codec::too_long()),
        },
{
    let label = encode_text(&item.label);
    if let Err(error) = write_units(b, &label) {
        return Err(error);
    }
    if let Err(error) = write_units(b, &item.target) {
        return Err(error);
    }
    push_flag(b, item.is_directory);
    assert(b@ =~= old(b)@ + item_out(item.data()));
    Ok(())
}

pub fn write_result(items: &[HelperItem]) -> (result: Result<Vec<u8>, IoError>)
    ensures
        match result {
            Ok(b) => items_fault(item_data(items@)) is None && b@ == items_out(item_data(items@)),
            Err(error) => items_fault(item_data(items@)) matches Some(fault) && codec::is_fault(
                error,
                fault,
            ),
        },
{
    let n: usize = items.len();
    if n > MAX_HELPER_ITEMS {
        return Err(IoError::new(ErrorKind::InvalidData, "too many helper items"));
    }
    let mut b: Vec<u8> = Vec::new();
    push_u32(&mut b, n as u32);
    let ghost head = b@;
    let ghost data = item_data(items@);
    assert(head =~= bytes::bytes32(data.len() as u32));
    assert(data.take(0) =~= Seq::empty());
    assert(b@ =~= head + codec::list_out(item_writer(), data.take(0)));
    let mut i: usize = 0;
    while i < n
        invariant
            i <= n,
            n == items@.len(),
            n <= MAX_HELPER_ITEMS,
            data == item_data(items@),
            forall|k: int| 0 <= k < i ==> item_sendable(#[trigger] data[k]),
            b@ == head + codec::list_out(item_writer(), data.take(i as int)),
        decreases n - i,
    {
        let written = write_item(&mut b, &items[i]);
        assert(data[i as int] == items@[i as int].data());
        if let Err(error) = written {
            assert(!item_sendable(data[i as int]));
            return Err(error);
        }
        proof {
            let next = data.take(i + 1);
            assert(next.drop_last() =~= data.take(i as int));
            assert(next.last() == data[i as int]);
        }
        i += 1;
        assert(b@ =~= head + codec::list_out(item_writer(), data.take(i as int)));
    }
    assert(data.take(n as int) =~= data);
    Ok(b)
}

fn read_label(b: &[u8], at: usize) -> (result: Result<(String, usize), IoError>)
    requires
        at <= b@.len(),
    ensures
        match (result, label_at(b@, at as int)) {
            (Ok(read), Ok(found)) => read.0@ == found.0 && read.1 == found.1 && read.1 <= b@.len(),
            (Err(error), Err(fault)) => codec::is_fault(error, fault),
            _ => false,
        },
{
    match read_units_at(b, at) {
        Err(error) => Err(error),
        Ok((units, at)) => match decode_strict(&units) {
            Some(chars) => Ok((string_from_chars(&chars), at)),
            None => Err(IoError::new(ErrorKind::InvalidData, "invalid UTF-16 label")),
        },
    }
}

fn read_item(b: &[u8], at: usize) -> (result: Result<(HelperItem, usize), IoError>)
    requires
        at <= b@.len(),
    ensures
        match (result, item_at(b@, at as int)) {
            (Ok(read), Ok(found)) => read.0.data() == found.0 && read.1 == found.1 && read.1
                <= b@.len(),
            (Err(error), Err(fault)) => codec::is_fault(error, fault),
            _ => false,
        },
{
    let (label, at) = match read_label(b, at) {
        Ok(read) => read,
        Err(error) => {
            return Err(error);
        },
    };
    let (target, at) = match read_units_at(b, at) {
        Ok(read) => read,
        Err(error) => {
            return Err(error);
        },
    };
    let n: usize = b.len();
    if at < n {
        Ok((HelperItem { label, target, is_directory: b[at] != 0 }, at + 1))
    } else {
        Err(IoError::new(ErrorKind::UnexpectedEof, "missing directory flag"))
    }
}

pub fn read_result(b: &[u8]) -> (result: Result<Vec<HelperItem>, IoError>)
    ensures
        match (result, items_in(b@)) {
            (Ok(items), Ok(found)) => item_data(items@) == found,
            (Err(error), Err(fault)) => codec::is_fault(error, fault),
            _ => false,
        },
{
    let (count, start) = match read_u32(b, 0) {
        Ok(read) => read,
        Err(error) => {
            return Err(error);
        },
    };
    if count > MAX_HELPER_ITEMS as u32 {
        return Err(IoError::new(ErrorKind::InvalidData, "too many helper items"));
    }
    let mut items: Vec<HelperItem> = Vec::new();
    let mut offset: usize = start;
    let mut i: u32 = 0;
    assert(item_data(items@) =~= Seq::empty());
    while i < count
        invariant
            i <= count,
            offset <= b@.len(),
            codec::list_at(item_reader(), b@, start as int, i as nat) == Ok::<
                (Seq<ItemData>, int),
                Fault,
            >((item_data(items@), offset as int)),
            items_at(b@, 0) == codec::list_at(item_reader(), b@, start as int, count as nat),
        decreases count - i,
    {
        match read_item(b, offset) {
            Ok((item, next)) => {
                let ghost before = item_data(items@);
                items.push(item);
                offset = next;
                assert(item_data(items@) =~= before.push(item.data()));
            },
            Err(error) => {
                proof {
                    assert(codec::list_at(
                        item_reader(),
                        b@,
                        start as int,
                        (i + 1) as nat,
                    ) is Err);
                    codec::lemma_list_stays_faulty(
                        item_reader(),
                        b@,
                        start as int,
                        (i + 1) as nat,
                        count as nat,
                    );
                }
                return Err(error);
            },
        }
        i += 1;
    }
    if offset != b.len() {
        return Err(IoError::new(ErrorKind::InvalidData, "trailing network helper data"));
    }
    Ok(items)
}

proof fn lemma_item_at(b: Seq<u8>, at: int, item: ItemData)
    requires
        codec::holds(b, at, item_out(item)),
        item_sendable(item),
    ensures
        item_at(b, at) == Ok::<(ItemData, int), Fault>((item, at + item_out(item).len())),
{
    let label = codec::units_out(text::utf16_encoded(item.label));
    let target = codec::units_out(item.target);
    let flag = seq![codec::flag_byte(item.is_directory)];
    codec::lemma_split(b, at, label + target, flag);
    codec::lemma_split(b, at, label, target);
    codec::lemma_units_at(b, at, text::utf16_encoded(item.label));
    text::law_utf16_round_trip(item.label);
    codec::lemma_units_at(b, at + label.len(), item.target);
    codec::lemma_byte_at(
        b,
        at + label.len() + target.len(),
        codec::flag_byte(item.is_directory),
    );
}

/// A list of places is read as it was written.
pub proof fn law_items_round_trip(items: Seq<ItemData>)
    requires
        items_fault(items) is None,
    ensures
        items_in(items_out(items)) == Ok::<Seq<ItemData>, Fault>(items),
{
    let b = items_out(items);
    let count = bytes::bytes32(items.len() as u32);
    assert(count.len() == 4);
    codec::lemma_whole(b);
    codec::lemma_split(b, 0, count, codec::list_out(item_writer(), items));
    codec::lemma_u32_at(b, 0, items.len() as u32);
    assert forall|i: int, p: int|
        #![trigger codec::holds(b, p, item_writer()(items[i]))]
        0 <= i < items.len() && codec::holds(
            b,
            p,
            item_writer()(items[i]),
        ) implies item_reader()(b, p) == Ok::<(ItemData, int), Fault>(
        (items[i], p + item_writer()(items[i]).len()),
    ) by {
        lemma_item_at(b, p, items[i]);
    }
    codec::lemma_list_at(item_reader(), item_writer(), b, 4, items);
}

// ---- the entries of a folder ----

/// What is sent of the entries of a folder.
pub struct ListingData {
    pub entries: Seq<EntryData>,
    pub skipped: nat,
    pub truncated: bool,
}

impl DirectoryListing {
    pub open spec fn data(self) -> ListingData {
        ListingData {
            entries: entry::entry_data(self.entries@),
            skipped: self.skipped as nat,
            truncated: self.truncated,
        }
    }
}

pub open spec fn entry_reader() -> spec_fn(Seq<u8>, int) -> Result<(EntryData, int), Fault> {
    |b: Seq<u8>, at: int| entry::entry_at(b, at)
}

pub open spec fn entry_writer() -> spec_fn(EntryData) -> Seq<u8> {
    |data: EntryData| entry::entry_out(data)
}

pub open spec fn entry_fits() -> spec_fn(EntryData) -> bool {
    |data: EntryData| entry::entry_sendable(data)
}

pub open spec fn listing_head(listing: ListingData) -> Seq<u8> {
    codec::head_out(
        listing.entries.len() as u32,
        listing.skipped as u64,
        codec::flag_byte(listing.truncated),
    )
}

pub open spec fn listing_out(listing: ListingData) -> Seq<u8> {
    listing_head(listing) + codec::list_out(entry_writer(), listing.entries)
}

/// What keeps a listing from being sent.
pub open spec fn listing_fault(listing: ListingData) -> Option<Fault> {
    if listing.entries.len() > MAX_HELPER_ITEMS {
        Some(codec::invalid("too many helper items"@))
    } else {
        codec::list_fault(
            entry_writer(),
            entry_fits(),
            13,
            MAX_HELPER_BYTES as nat,
            listing.entries,
        )
    }
}

/// The number of entries, of skipped ones, and whether there are more, as a listing begins.
pub open spec fn listing_head_at(b: Seq<u8>, at: int) -> Result<((u32, u64, bool), int), Fault> {
    match codec::u32_at(b, at) {
        Err(fault) => Err(fault),
        Ok((count, at)) => if count > MAX_HELPER_ITEMS {
            Err(codec::invalid("too many helper items"@))
        } else {
            match codec::u64_at(b, at) {
                Err(fault) => Err(fault),
                Ok((skipped, at)) => if skipped > usize::MAX {
                    Err(codec::invalid("invalid skipped count"@))
                } else {
                    match codec::byte_at(b, at) {
                        Err(fault) => Err(fault),
                        Ok((truncated, at)) => Ok(((count, skipped, truncated != 0), at)),
                    }
                },
            }
        },
    }
}

pub open spec fn listing_at(b: Seq<u8>, at: int) -> Result<(ListingData, int), Fault> {
    match listing_head_at(b, at) {
        Err(fault) => Err(fault),
        Ok(((count, skipped, truncated), at)) => match codec::list_at(
            entry_reader(),
            b,
            at,
            count as nat,
        ) {
            Err(fault) => Err(fault),
            Ok((entries, at)) => Ok(
                (ListingData { entries, skipped: skipped as nat, truncated }, at),
            ),
        },
    }
}

pub open spec fn listing_in(b: Seq<u8>) -> Result<ListingData, Fault> {
    if b.len() > MAX_HELPER_BYTES {
        Err(codec::invalid("helper result too large"@))
    } else {
        helper::alone(listing_at(b, 0), b, "trailing directory helper data"@)
    }
}

pub fn write_directory_result(listing: &DirectoryListing) -> (result: Result<Vec<u8>, IoError>)
    ensures
        match result {
            Ok(b) => listing_fault(listing.data()) is None && b@ == listing_out(listing.data()),
            Err(error) => listing_fault(listing.data()) matches Some(fault) && codec::is_fault(
                error,
                fault,
            ),
        },
{
    let n: usize = listing.entries.len();
    if n > MAX_HELPER_ITEMS {
        return Err(IoError::new(ErrorKind::InvalidData, "too many helper items"));
    }
    let mark: u8 = if listing.truncated {
        1
    } else {
        0
    };
    let mut b = write_head(n as u32, listing.skipped as u64, mark);
    let ghost head = b@;
    let ghost data = entry::entry_data(listing.entries@);
    assert(head == listing_head(listing.data()));
    assert(data.take(0) =~= Seq::empty());
    assert(b@ =~= head + codec::list_out(entry_writer(), data.take(0)));
    let mut i: usize = 0;
    while i < n
        invariant
            i <= n,
            n == listing.entries@.len(),
            n <= MAX_HELPER_ITEMS,
            data == entry::entry_data(listing.entries@),
            head.len() == 13,
            b@ == head + codec::list_out(entry_writer(), data.take(i as int)),
            codec::list_fault(
                entry_writer(),
                entry_fits(),
                13,
                MAX_HELPER_BYTES as nat,
                data.take(i as int),
            ) is None,
        decreases n - i,
    {
        let written = write_entry(&mut b, &listing.entries[i]);
        assert(data[i as int] == listing.entries@[i as int].data());
        let ghost next = data.take(i + 1);
        assert(next.drop_last() =~= data.take(i as int));
        assert(next.last() == data[i as int]);
        if let Err(error) = written {
            proof {
                codec::lemma_list_fault_stays(
                    entry_writer(),
                    entry_fits(),
                    13,
                    MAX_HELPER_BYTES as nat,
                    data,
                    i + 1,
                );
            }
            return Err(error);
        }
        i += 1;
        assert(b@ =~= head + codec::list_out(entry_writer(), data.take(i as int)));
        if b.len() > MAX_HELPER_BYTES {
            proof {
                codec::lemma_list_fault_stays(
                    entry_writer(),
                    entry_fits(),
                    13,
                    MAX_HELPER_BYTES as nat,
                    data,
                    i as int,
                );
            }
            return Err(IoError::new(ErrorKind::InvalidData, "helper result too large"));
        }
    }
    assert(data.take(n as int) =~= data);
    Ok(b)
}

fn read_listing_head(b: &[u8]) -> (result: Result<((u32, u64, bool), usize), IoError>)
    ensures
        match (result, listing_head_at(b@, 0)) {
            (Ok(read), Ok(found)) => read.0 == found.0 && read.1 == found.1 && read.1 <= b@.len(),
            (Err(error), Err(fault)) => codec::is_fault(error, fault),
            _ => false,
        },
{
    let (count, at) = match read_u32(b, 0) {
        Ok(read) => read,
        Err(error) => {
            return Err(error);
        },
    };
    if count > MAX_HELPER_ITEMS as u32 {
        return Err(IoError::new(ErrorKind::InvalidData, "too many helper items"));
    }
    let (skipped, at) = match read_u64(b, at) {
        Ok(read) => read,
        Err(error) => {
            return Err(error);
        },
    };
    if skipped > usize::MAX as u64 {
        return Err(IoError::new(ErrorKind::InvalidData, "invalid skipped count"));
    }
    match read_byte(b, at) {
        Ok((truncated, at)) => Ok(((count, skipped, truncated != 0), at)),
        Err(error) => Err(error),
    }
}

/// The entries are numbered from one on, and shown by their names and folders.
pub open spec fn numbered(entries: Seq<FileEntry>) -> bool {
    forall|i: int|
        0 <= i < entries.len() ==> {
            &&& (#[trigger] entries[i]).id.0 == i + 1
            &&& entries[i].folder_size == FolderSizeState::NotIndexed
            &&& entries[i].is_presented()
        }
}

pub fn read_directory_result(b: &[u8]) -> (result: Result<DirectoryListing, IoError>)
    ensures
        match (result, listing_in(b@)) {
            (Ok(listing), Ok(found)) => listing.data() == found && numbered(listing.entries@),
            (Err(error), Err(fault)) => codec::is_fault(error, fault),
            _ => false,
        },
{
    if b.len() > MAX_HELPER_BYTES {
        return Err(IoError::new(ErrorKind::InvalidData, "helper result too large"));
    }
    let ((count, skipped, truncated), start) = match read_listing_head(b) {
        Ok(read) => read,
        Err(error) => {
            return Err(error);
        },
    };
    let mut entries: Vec<FileEntry> = Vec::new();
    let mut offset: usize = start;
    let mut i: u32 = 0;
    assert(entry::entry_data(entries@) =~= Seq::empty());
    while i < count
        invariant
            i <= count <= MAX_HELPER_ITEMS,
            offset <= b@.len(),
            entries@.len() == i,
            numbered(entries@),
            codec::list_at(entry_reader(), b@, start as int, i as nat) == Ok::<
                (Seq<EntryData>, int),
                Fault,
            >((entry::entry_data(entries@), offset as int)),
            listing_at(b@, 0) == (match codec::list_at(
                entry_reader(),
                b@,
                start as int,
                count as nat,
            ) {
                Err(fault) => Err::<(ListingData, int), Fault>(fault),
                Ok((entries, at)) => Ok(
                    (ListingData { entries, skipped: skipped as nat, truncated }, at),
                ),
            }),
            b@.len() <= MAX_HELPER_BYTES,
        decreases count - i,
    {
        match read_entry(b, offset) {
            Ok((fields, next)) => {
                let ghost before = entry::entry_data(entries@);
                let ghost data = fields.data();
                let shown = present(fields, i + 1, FolderSizeState::NotIndexed);
                entries.push(shown);
                offset = next;
                assert(entry::entry_data(entries@) =~= before.push(data));
            },
            Err(error) => {
                proof {
                    assert(codec::list_at(
                        entry_reader(),
                        b@,
                        start as int,
                        (i + 1) as nat,
                    ) is Err);
                    codec::lemma_list_stays_faulty(
                        entry_reader(),
                        b@,
                        start as int,
                        (i + 1) as nat,
                        count as nat,
                    );
                }
                return Err(error);
            },
        }
        i += 1;
    }
    if offset != b.len() {
        return Err(IoError::new(ErrorKind::InvalidData, "trailing directory helper data"));
    }
    Ok(DirectoryListing { entries, skipped: skipped as usize, truncated })
}

pub open spec fn all_valid(entries: Seq<EntryData>) -> bool {
    forall|i: int| 0 <= i < entries.len() ==> entry::entry_valid(#[trigger] entries[i])
}

proof fn lemma_no_larger(entries: Seq<EntryData>)
    requires
        codec::list_fault(entry_writer(), entry_fits(), 13, MAX_HELPER_BYTES as nat, entries)
            is None,
    ensures
        13 + codec::list_out(entry_writer(), entries).len() <= MAX_HELPER_BYTES,
{
}

/// A listing is read as it was written, where its times are none before 1970.
pub proof fn law_listing_round_trip(listing: ListingData)
    requires
        listing_fault(listing) is None,
        all_valid(listing.entries),
        listing.skipped <= usize::MAX,
    ensures
        listing_in(listing_out(listing)) == Ok::<ListingData, Fault>(listing),
{
    let b = listing_out(listing);
    let list = codec::list_out(entry_writer(), listing.entries);
    codec::lemma_whole(b);
    codec::lemma_split(b, 0, listing_head(listing), list);
    codec::lemma_head(
        b,
        listing.entries.len() as u32,
        listing.skipped as u64,
        codec::flag_byte(listing.truncated),
    );
    lemma_no_larger(listing.entries);
    assert forall|i: int, p: int|
        #![trigger codec::holds(b, p, entry_writer()(listing.entries[i]))]
        0 <= i < listing.entries.len() && codec::holds(
            b,
            p,
            entry_writer()(listing.entries[i]),
        ) implies entry_reader()(b, p) == Ok::<(EntryData, int), Fault>(
        (listing.entries[i], p + entry_writer()(listing.entries[i]).len()),
    ) by {
        entry::law_entry_round_trip(b, p, listing.entries[i]);
    }
    codec::lemma_list_at(entry_reader(), entry_writer(), b, 13, listing.entries);
}

/// The entries of a folder, or the refusal of a folder that holds more than can be sent.
pub fn isolated_directory(listing: DirectoryListing) -> (result: Result<
    (Vec<FileEntry>, usize),
    IoError,
>)
    ensures
        match result {
            Ok(found) => !listing.truncated && found.0 == listing.entries && found.1
                == listing.skipped,
            Err(error) => listing.truncated && errors::fails_with(
                error,
                ErrorKind::InvalidData,
                "network directory exceeds the 4096 item safety limit"@,
            ),
        },
{
    if listing.truncated {
        return Err(
            IoError::new(
                ErrorKind::InvalidData,
                "network directory exceeds the 4096 item safety limit",
            ),
        );
    }
    Ok((listing.entries, listing.skipped))
}

// ---- laws of the lists ----

/// Places arrive as they were sent: as many, in their order, each with its label, its target, and a
/// folder as a folder.
pub proof fn law_sent_places_arrive(
    items: &[HelperItem],
    written: Vec<u8>,
    received: &[u8],
    read: Result<Vec<HelperItem>, IoError>,
)
    requires
        call_ensures(write_result, (items,), Ok(written)),
        received@ == written@,
        call_ensures(read_result, (received,), read),
    ensures
        read matches Ok(places) && places@.len() == items@.len() && forall|i: int|
            0 <= i < items@.len() ==> {
                &&& (#[trigger] places@[i]).label@ == items@[i].label@
                &&& places@[i].target@ == items@[i].target@
                &&& places@[i].is_directory == items@[i].is_directory
            },
{
    let data = item_data(items@);
    law_items_round_trip(data);
    let places = read->Ok_0;
    assert(item_data(places@) == data);
    assert(item_data(places@).len() == places@.len());
    assert forall|i: int| 0 <= i < items@.len() implies {
        &&& (#[trigger] places@[i]).label@ == items@[i].label@
        &&& places@[i].target@ == items@[i].target@
        &&& places@[i].is_directory == items@[i].is_directory
    } by {
        assert(item_data(places@)[i] == data[i]);
        assert(places@[i].data() == items@[i].data());
    }
}

/// The listing of a folder arrives as it was sent: every entry with its name, path, kind, size and
/// times, numbered from one on, with the count of what could not be read, and whether it is cut off.
pub proof fn law_a_sent_listing_arrives(
    listing: DirectoryListing,
    written: Vec<u8>,
    received: &[u8],
    read: Result<DirectoryListing, IoError>,
)
    requires
        call_ensures(write_directory_result, (&listing,), Ok(written)),
        forall|i: int|
            0 <= i < listing.entries@.len() ==> codec::valid_time(
                (#[trigger] listing.entries@[i]).modified,
            ) && codec::valid_time(listing.entries@[i].created),
        received@ == written@,
        call_ensures(read_directory_result, (received,), read),
    ensures
        read matches Ok(found) && {
            &&& found.skipped == listing.skipped
            &&& found.truncated == listing.truncated
            &&& found.entries@.len() == listing.entries@.len()
            &&& forall|i: int|
                0 <= i < found.entries@.len() ==> {
                    let here = #[trigger] found.entries@[i];
                    let there = listing.entries@[i];
                    &&& here.original_name@ == there.original_name@
                    &&& here.path@ == there.path@
                    &&& here.kind == there.kind
                    &&& here.size_bytes == there.size_bytes
                    &&& here.modified == there.modified
                    &&& here.created == there.created
                    &&& here.id.0 == i + 1
                    &&& here.display_name@ == text::utf16_lossy(there.original_name@)
                }
        },
{
    let data = listing.data();
    assert forall|i: int| 0 <= i < data.entries.len() implies entry::entry_valid(
        #[trigger] data.entries[i],
    ) by {
        assert(data.entries[i] == listing.entries@[i].data());
        lemma_all_sendable(data.entries, i);
    }
    law_listing_round_trip(data);
    let found = read->Ok_0;
    assert(found.data() == data);
    assert(found.data().entries.len() == found.entries@.len());
    assert forall|i: int| 0 <= i < found.entries@.len() implies {
        let here = #[trigger] found.entries@[i];
        let there = listing.entries@[i];
        &&& here.original_name@ == there.original_name@
        &&& here.path@ == there.path@
        &&& here.kind == there.kind
        &&& here.size_bytes == there.size_bytes
        &&& here.modified == there.modified
        &&& here.created == there.created
        &&& here.id.0 == i + 1
        &&& here.display_name@ == text::utf16_lossy(there.original_name@)
    } by {
        assert(found.data().entries[i] == data.entries[i]);
        assert(found.entries@[i].data() == listing.entries@[i].data());
        assert(found.entries@[i].data().name == found.entries@[i].original_name@);
    }
}

proof fn lemma_all_sendable(entries: Seq<EntryData>, i: int)
    requires
        0 <= i < entries.len(),
        codec::list_fault(entry_writer(), entry_fits(), 13, MAX_HELPER_BYTES as nat, entries)
            is None,
    ensures
        entry::entry_sendable(entries[i]),
    decreases entries.len(),
{
    if i < entries.len() - 1 {
        lemma_all_sendable(entries.drop_last(), i);
        assert(entries.drop_last()[i] == entries[i]);
    } else {
        assert(entry_fits()(entries.last()));
    }
}

/// A listing that is cut off is refused; any other is handed on whole.
pub proof fn law_cut_listings_are_refused(
    listing: DirectoryListing,
    result: Result<(Vec<FileEntry>, usize), IoError>,
)
    requires
        call_ensures(isolated_directory, (listing,), result),
    ensures
        result is Err <==> listing.truncated,
        result matches Ok((entries, skipped)) ==> entries@ == listing.entries@ && skipped
            == listing.skipped,
{
}

} // verus!
