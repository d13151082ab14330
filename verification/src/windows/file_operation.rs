//! Moving files to the recycle bin and back.
use std::collections::HashMap;

use vstd::prelude::*;

use crate::errors;
use crate::errors::{ErrorKind, IoError};
use crate::text;
use crate::text::{
    decimal_text, decode_lossy, encode_text, push_text, string_from_chars, text_of,
};
use crate::wide;
use crate::wide::{contains_unit, push_units, units_eq_ignore_case};
use crate::windows::free_name;
use crate::windows::free_name::{find_free, NameStep};
use crate::windows::path_relation::FileIdentity;
use crate::winpath;
use crate::winpath::{file_name_of, join, parent_of, units_copy_all};

verus! {

broadcast use vstd::std_specs::hash::group_hash_axioms;

#[derive(Debug, PartialEq, Eq)]
pub struct FileOperationItemResult {
    pub index: usize,
    pub path: Vec<u16>,
    pub result: Result<(), String>,
    pub recycled_identity: Option<Vec<u8>>,
}

impl Clone for FileOperationItemResult {
    fn clone(&self) -> (copy: Self)
        ensures
            copy.index == self.index,
            copy.path@ == self.path@,
            match (copy.result, self.result) {
                (Ok(_), Ok(_)) => true,
                (Err(copied), Err(message)) => copied@ == message@,
                _ => false,
            },
            match (copy.recycled_identity, self.recycled_identity) {
                (Some(copied), Some(identity)) => copied@ == identity@,
                (None, None) => true,
                _ => false,
            },
    {
        let copy = FileOperationItemResult {
            index: self.index,
            path: self.path.clone(),
            result: match &self.result {
                Ok(_) => Ok(()),
                Err(message) => Err(message.clone()),
            },
            recycled_identity: match &self.recycled_identity {
                Some(identity) => Some(identity.clone()),
                None => None,
            },
        };
        assert(copy.path@ =~= self.path@);
        if let (Some(copied), Some(identity)) = (&copy.recycled_identity, &self.recycled_identity) {
            assert(copied@ =~= identity@);
        }
        copy
    }
}

#[derive(Debug, Clone, PartialEq, Eq)]
pub struct RecycleResult {
    pub items: Vec<FileOperationItemResult>,
    pub aborted: bool,
}

#[derive(Debug, Clone, PartialEq, Eq)]
pub enum RestoreRecycleResult {
    Completed,
    Pending { temporary: Vec<u16>, identity: FileIdentity, message: String },
}

/// What the Shell reported of an item: a result code, its text where it is an error, and where the
/// item is now.
#[derive(Debug, Clone)]
pub struct DeleteCallbackResult {
    pub result: i32,
    pub message: String,
    pub recycled_identity: Option<Vec<u8>>,
    pub created_path: Option<Vec<u16>>,
}

// ---- flags ----

pub const FOF_SILENT: u32 = 4;

pub const FOF_RENAMEONCOLLISION: u32 = 8;

pub const FOF_NOCONFIRMATION: u32 = 0x10;

pub const FOF_ALLOWUNDO: u32 = 0x40;

pub const FOF_NOERRORUI: u32 = 0x400;

pub const FOFX_RECYCLEONDELETE: u32 = 0x8_0000;

pub const FOFX_EARLYFAILURE: u32 = 0x10_0000;

pub open spec fn flags_for_recycling() -> u32 {
    FOF_ALLOWUNDO | FOFX_RECYCLEONDELETE | FOF_NOCONFIRMATION | FOF_NOERRORUI | FOF_SILENT
}

pub open spec fn flags_for_restoring() -> u32 {
    FOFX_EARLYFAILURE | FOF_NOERRORUI | FOF_SILENT
}

pub fn recycle_flags() -> (flags: u32)
    ensures
        flags == flags_for_recycling(),
{
    FOF_ALLOWUNDO | FOFX_RECYCLEONDELETE | FOF_NOCONFIRMATION | FOF_NOERRORUI | FOF_SILENT
}

pub fn restore_flags() -> (flags: u32)
    ensures
        flags == flags_for_restoring(),
{
    FOFX_EARLYFAILURE | FOF_NOERRORUI | FOF_SILENT
}

/// The result code with which an operation is stopped.
pub const E_ABORT: u32 = 0x8000_4004;

/// Whether the Shell may go on with an item.
pub fn item_permission(cancelled: bool) -> (permission: Result<(), u32>)
    ensures
        permission == if cancelled {
            Err::<(), u32>(E_ABORT)
        } else {
            Ok(())
        },
{
    if cancelled {
        Err(E_ABORT)
    } else {
        Ok(())
    }
}

// ---- paths ----

/// A path as the Shell takes it, with a NUL at its end.
pub fn shell_path(path: &[u16]) -> (result: Result<Vec<u16>, IoError>)
    ensures
        match result {
            Ok(units) => path@.len() > 0 && !path@.contains(0) && units@ == path@.push(0),
            Err(error) => (path@.len() == 0 || path@.contains(0)) && errors::fails_with(
                error,
                ErrorKind::InvalidInput,
                "invalid recycle path"@,
            ),
        },
{
    if path.len() == 0 || contains_unit(path, 0) {
        return Err(IoError::new(ErrorKind::InvalidInput, "invalid recycle path"));
    }
    let mut units = units_copy_all(path);
    units.push(0);
    Ok(units)
}

/// The paths agree but for ASCII case.
pub open spec fn same_but_case(left: Seq<u16>, right: Seq<u16>) -> bool {
    wide::ascii_lower(left) == wide::ascii_lower(right)
}

pub fn same_windows_path(left: &[u16], right: &[u16]) -> (same: bool)
    ensures
        same == same_but_case(left@, right@),
{
    units_eq_ignore_case(left, right)
}

/// The identity of an item in the Shell ends with an empty entry.
pub open spec fn valid_identity(bytes: Seq<u8>) -> bool {
    bytes.len() >= 2 && bytes[bytes.len() - 2] == 0 && bytes[bytes.len() - 1] == 0
}

/// Whether an identity can be handed to the Shell.
pub fn shell_item_from_pidl(bytes: &[u8]) -> (result: Result<(), String>)
    ensures
        match result {
            Ok(_) => valid_identity(bytes@),
            Err(message) => !valid_identity(bytes@) && message@
                == "invalid recycled item identity"@,
        },
{
    let n: usize = bytes.len();
    if n < 2 || bytes[n - 2] != 0 || bytes[n - 1] != 0 {
        Err(text_of("invalid recycled item identity"))
    } else {
        Ok(())
    }
}

// ---- recycling ----

/// The outcome for an item as a mathematical value.
pub open spec fn result_view(result: Result<(), String>) -> Result<(), Seq<char>> {
    match result {
        Ok(_) => Ok(()),
        Err(message) => Err(message@),
    }
}

pub open spec fn text_view(value: Option<&str>) -> Option<Seq<char>> {
    match value {
        Some(text) => Some(text@),
        None => None,
    }
}

pub open spec fn bytes_view(value: Option<Vec<u8>>) -> Option<Seq<u8>> {
    match value {
        Some(bytes) => Some(bytes@),
        None => None,
    }
}

/// Why nothing is known of an item.
pub open spec fn missing_result(
    index: usize,
    queued: Seq<usize>,
    perform_error: Option<Seq<char>>,
    aborted: bool,
) -> Seq<char> {
    match perform_error {
        Some(error) => error,
        None => if aborted {
            "recycle operation aborted"@
        } else if queued.contains(index) {
            "shell did not report a recycle result"@
        } else {
            "item was not queued for recycling"@
        },
    }
}

/// The outcome for an item: an error from its preparation, else what the Shell reported, else why
/// nothing is known.
pub open spec fn merged_result(
    index: usize,
    initial: Map<usize, Result<(), String>>,
    queued: Seq<usize>,
    reported: Map<usize, DeleteCallbackResult>,
    perform_error: Option<Seq<char>>,
    aborted: bool,
) -> Result<(), Seq<char>> {
    if initial.contains_key(index) {
        result_view(initial[index])
    } else if reported.contains_key(index) {
        if reported[index].result >= 0 {
            Ok(())
        } else {
            Err(reported[index].message@)
        }
    } else {
        Err(missing_result(index, queued, perform_error, aborted))
    }
}

/// Where the item is now, if it was recycled.
pub open spec fn merged_identity(
    index: usize,
    result: Result<(), Seq<char>>,
    reported: Map<usize, DeleteCallbackResult>,
) -> Option<Seq<u8>> {
    if result is Ok && reported.contains_key(index) {
        bytes_view(reported[index].recycled_identity)
    } else {
        None
    }
}

fn contains_index(indices: &[usize], index: usize) -> (found: bool)
    ensures
        found == indices@.contains(index),
{
    let n: usize = indices.len();
    let mut i: usize = 0;
    while i < n
        invariant
            n == indices@.len(),
            i <= n,
            forall|j: int| 0 <= j < i ==> indices@[j] != index,
        decreases n - i,
    {
        if indices[i] == index {
            return true;
        }
        i += 1;
    }
    false
}

fn missing_text(index: usize, queued: &[usize], perform_error: Option<&str>, aborted: bool) -> (
    message: String)
    ensures
        message@ == missing_result(index, queued@, text_view(perform_error), aborted),
{
    match perform_error {
        Some(error) => text_of(error),
        None => if aborted {
            text_of("recycle operation aborted")
        } else if contains_index(queued, index) {
            text_of("shell did not report a recycle result")
        } else {
            text_of("item was not queued for recycling")
        },
    }
}

/// The item is the one at its index, with the outcome that follows from all reports.
pub open spec fn is_merged_item(
    item: FileOperationItemResult,
    index: int,
    path: Seq<u16>,
    initial: Map<usize, Result<(), String>>,
    queued: Seq<usize>,
    reported: Map<usize, DeleteCallbackResult>,
    perform_error: Option<Seq<char>>,
    aborted: bool,
) -> bool {
    let result = merged_result(index as usize, initial, queued, reported, perform_error, aborted);
    &&& item.index == index
    &&& item.path@ == path
    &&& result_view(item.result) == result
    &&& bytes_view(item.recycled_identity) == merged_identity(index as usize, result, reported)
}

/// The outcomes for all items, in the order of their paths.
pub fn merge_recycle_results(
    paths: &[Vec<u16>],
    initial: HashMap<usize, Result<(), String>>,
    queued: &[usize],
    reported: HashMap<usize, DeleteCallbackResult>,
    perform_error: Option<&str>,
    aborted: bool,
) -> (items: Vec<FileOperationItemResult>)
    ensures
        items@.len() == paths@.len(),
        forall|i: int|
            0 <= i < items@.len() ==> is_merged_item(
                #[trigger] items@[i],
                i,
                paths@[i]@,
                initial@,
                queued@,
                reported@,
                text_view(perform_error),
                aborted,
            ),
{
    let ghost first = initial@;
    let ghost told = reported@;
    let mut initial = initial;
    let mut reported = reported;
    let n: usize = paths.len();
    let mut items: Vec<FileOperationItemResult> = Vec::new();
    let mut index: usize = 0;
    while index < n
        invariant
            n == paths@.len(),
            index <= n,
            items@.len() == index,
            forall|k: usize| index <= k ==> #[trigger] initial@.get(k) == first.get(k),
            forall|k: usize| index <= k ==> #[trigger] reported@.get(k) == told.get(k),
            forall|i: int|
                0 <= i < items@.len() ==> is_merged_item(
                    #[trigger] items@[i],
                    i,
                    paths@[i]@,
                    first,
                    queued@,
                    told,
                    text_view(perform_error),
                    aborted,
                ),
        decreases n - index,
    {
        let ghost initial_left = initial@;
        let ghost reported_left = reported@;
        assert(initial_left.get(index) == first.get(index));
        assert(reported_left.get(index) == told.get(index));
        let callback = reported.remove(&index);
        let prepared = initial.remove(&index);
        proof {
            assert forall|k: usize| index < k implies #[trigger] initial@.get(k) == first.get(k) by {
                assert(initial_left.get(k) == first.get(k));
            }
            assert forall|k: usize| index < k implies #[trigger] reported@.get(k) == told.get(k) by {
                assert(reported_left.get(k) == told.get(k));
            }
        }
        let result: Result<(), String> = match prepared {
            Some(result) => result,
            None => match &callback {
                Some(callback) => if callback.result >= 0 {
                    Ok(())
                } else {
                    Err(text_of(callback.message.as_str()))
                },
                None => Err(missing_text(index, queued, perform_error, aborted)),
            },
        };
        let succeeded = result.is_ok();
        let recycled_identity = match callback {
            Some(callback) => if succeeded {
                callback.recycled_identity
            } else {
                None
            },
            None => None,
        };
        let item = FileOperationItemResult {
            index,
            path: units_copy_all(paths[index].as_slice()),
            result,
            recycled_identity,
        };
        assert(is_merged_item(
            item,
            index as int,
            paths@[index as int]@,
            first,
            queued@,
            told,
            text_view(perform_error),
            aborted,
        ));
        items.push(item);
        index += 1;
    }
    items
}

/// Every item has failed with the same message.
pub open spec fn all_failed(result: RecycleResult, paths: Seq<Seq<u16>>, message: Seq<char>) -> bool {
    &&& !result.aborted
    &&& result.items@.len() == paths.len()
    &&& forall|i: int|
        0 <= i < paths.len() ==> {
            let item = #[trigger] result.items@[i];
            item.index == i && item.path@ == paths[i] && result_view(item.result) == Err::<
                (),
                Seq<char>,
            >(message) && item.recycled_identity is None
        }
}

pub fn failed_result(paths: &[Vec<u16>], message: &str) -> (result: RecycleResult)
    ensures
        all_failed(result, winpath::path_views(paths@), message@),
{
    let n: usize = paths.len();
    let mut items: Vec<FileOperationItemResult> = Vec::new();
    let mut i: usize = 0;
    while i < n
        invariant
            n == paths@.len(),
            i <= n,
            items@.len() == i,
            forall|j: int|
                0 <= j < i ==> {
                    let item = #[trigger] items@[j];
                    item.index == j && item.path@ == paths@[j]@ && result_view(item.result)
                        == Err::<(), Seq<char>>(message@) && item.recycled_identity is None
                },
        decreases n - i,
    {
        items.push(
            FileOperationItemResult {
                index: i,
                path: units_copy_all(paths[i].as_slice()),
                result: Err(text_of(message)),
                recycled_identity: None,
            },
        );
        i += 1;
    }
    RecycleResult { items, aborted: false }
}

/// The items that are queued for recycling, and the errors of those that could not be.
#[derive(Debug)]
pub struct RecycleBatch {
    queued: Vec<usize>,
    initial: HashMap<usize, Result<(), String>>,
}

/// What a batch holds.
pub struct Batch {
    pub queued: Seq<usize>,
    pub initial: Map<usize, Result<(), String>>,
}

impl View for RecycleBatch {
    type V = Batch;

    closed spec fn view(&self) -> Batch {
        Batch { queued: self.queued@, initial: self.initial@ }
    }
}

impl RecycleBatch {
    pub fn new() -> (batch: RecycleBatch)
        ensures
            batch@.queued.len() == 0,
            batch@.initial == Map::<usize, Result<(), String>>::empty(),
    {
        RecycleBatch { queued: Vec::new(), initial: HashMap::new() }
    }

    /// Prepares an item: the path for the Shell, or the reason why there is none is kept.
    pub fn prepare(&mut self, index: usize, path: &[u16]) -> (shell: Option<Vec<u16>>)
        ensures
            shell is Some <==> path@.len() > 0 && !path@.contains(0),
            shell matches Some(units) ==> units@ == path@.push(0) && final(self)@ == old(self)@,
            shell is None ==> final(self)@.queued == old(self)@.queued && final(self)@.initial
                == old(self)@.initial.insert(index, final(self)@.initial[index]) && result_view(
                final(self)@.initial[index],
            ) == Err::<(), Seq<char>>("invalid recycle path"@),
    {
        match shell_path(path) {
            Ok(units) => Some(units),
            Err(error) => {
                self.initial.insert(index, Err(error.message));
                None
            },
        }
    }

    /// The Shell has queued an item, or refused it.
    pub fn submitted(&mut self, index: usize, refusal: Option<String>)
        ensures
            match refusal {
                None => final(self)@ == (Batch { queued: old(self)@.queued.push(index), ..old(
                    self,
                )@ }),
                Some(message) => final(self)@ == (Batch {
                    initial: old(self)@.initial.insert(index, Err(message)),
                    ..old(self)@
                }),
            },
    {
        match refusal {
            None => {
                self.queued.push(index);
            },
            Some(message) => {
                self.initial.insert(index, Err(message));
            },
        }
    }

    /// Whether there is anything to carry out.
    pub fn is_due(&self, cancelled: bool) -> (due: bool)
        ensures
            due == (self@.queued.len() > 0 && !cancelled),
    {
        self.queued.len() > 0 && !cancelled
    }

    /// The result of the batch.
    pub fn finish(
        self,
        paths: &[Vec<u16>],
        reported: HashMap<usize, DeleteCallbackResult>,
        perform_error: Option<&str>,
        aborted: bool,
        cancelled: bool,
    ) -> (result: RecycleResult)
        ensures
            result.aborted == (aborted || cancelled),
            result.items@.len() == paths@.len(),
            forall|i: int|
                0 <= i < result.items@.len() ==> is_merged_item(
                    #[trigger] result.items@[i],
                    i,
                    paths@[i]@,
                    self@.initial,
                    self@.queued,
                    reported@,
                    text_view(perform_error),
                    aborted || cancelled,
                ),
    {
        let items = merge_recycle_results(
            paths,
            self.initial,
            self.queued.as_slice(),
            reported,
            perform_error,
            aborted || cancelled,
        );
        RecycleResult { items, aborted: aborted || cancelled }
    }
}

// ---- restoring ----

/// The folder to which an item is restored, unless the restore is cancelled or its place is taken.
pub fn restore_folder(original: &[u16], cancelled: bool, occupied: bool) -> (result: Result<
    Vec<u16>,
    String,
>)
    ensures
        if cancelled {
            result matches Err(message) && message@ == "recycle restore cancelled"@
        } else if occupied {
            result matches Err(message) && message@ == "restore destination already exists: "@
                + text::utf16_lossy(original@)
        } else {
            match winpath::path_parent(original@) {
                Some(parent) => result matches Ok(found) && found@ == parent,
                None => result matches Err(message) && message@
                    == "restore destination has no parent"@,
            }
        },
{
    if cancelled {
        return Err(text_of("recycle restore cancelled"));
    }
    if occupied {
        let mut message = text_of("restore destination already exists: ");
        let chars = decode_lossy(original);
        push_text(&mut message, string_from_chars(chars.as_slice()).as_str());
        return Err(message);
    }
    match parent_of(original) {
        Some(parent) => Ok(parent),
        None => Err(text_of("restore destination has no parent")),
    }
}

/// The temporary path of the n-th try beside the original.
pub open spec fn restore_candidate(original: Seq<u16>, index: nat) -> Seq<u16> {
    let parent = match winpath::path_parent(original) {
        Some(parent) => parent,
        None => Seq::empty(),
    };
    let name = match winpath::path_name(original) {
        Some(name) => name,
        None => text::utf16_encoded("item"@),
    };
    winpath::joined(
        parent,
        text::utf16_encoded(".asterfiles-restore-"@) + text::utf16_encoded(text::decimal(index))
            + seq![0x2du16] + name,
    )
}

/// The temporary path for a restore, given which of the paths tried so far exist.
pub fn unique_restore_path(original: &[u16], taken: &[bool]) -> (step: NameStep)
    requires
        taken@.len() < u64::MAX,
    ensures
        free_name::is_step(
            step,
            taken@,
            restore_candidate(original@, (free_name::first_free(taken@) + 1) as nat),
        ),
{
    let parent = match parent_of(original) {
        Some(parent) => parent,
        None => {
            let parent: Vec<u16> = Vec::new();
            assert(parent@ =~= Seq::<u16>::empty());
            parent
        },
    };
    let own = match file_name_of(original) {
        Some(name) => name,
        None => encode_text("item"),
    };
    let n: usize = taken.len();
    let at: usize = find_free(taken);
    let mut name = encode_text(".asterfiles-restore-");
    let digits = decimal_text(at as u64 + 1);
    push_units(&mut name, encode_text(digits.as_str()).as_slice());
    name.push(0x2d);
    push_units(&mut name, own.as_slice());
    assert(name@ =~= text::utf16_encoded(".asterfiles-restore-"@) + text::utf16_encoded(
        text::decimal((at + 1) as nat),
    ) + seq![0x2du16] + own@);
    let path = join(parent.as_slice(), name.as_slice());
    if at < n {
        NameStep::Free(path)
    } else {
        NameStep::Probe(path)
    }
}

/// The name of the temporary path as the Shell takes it.
pub fn restore_name(temporary: &[u16]) -> (result: Result<Vec<u16>, String>)
    ensures
        match winpath::path_name(temporary@) {
            Some(name) => if name.contains(0) {
                result matches Err(message) && message@ == "restore destination name is invalid"@
            } else {
                result matches Ok(units) && units@ == name.push(0)
            },
            None => result matches Err(message) && message@
                == "restore temporary destination has no name"@,
        },
{
    match file_name_of(temporary) {
        Some(name) => {
            if contains_unit(name.as_slice(), 0) {
                return Err(text_of("restore destination name is invalid"));
            }
            let mut units = name;
            units.push(0);
            Ok(units)
        },
        None => Err(text_of("restore temporary destination has no name")),
    }
}

/// The Shell has moved the item to its temporary path.
pub open spec fn was_moved(
    callback: DeleteCallbackResult,
    temporary: Seq<u16>,
    aborted: bool,
    temporary_exists: bool,
) -> bool {
    &&& callback.result >= 0
    &&& callback.recycled_identity is Some
    &&& callback.created_path matches Some(path) && same_but_case(path@, temporary)
    &&& !aborted
    &&& temporary_exists
}

/// Whether the Shell has moved the item out of the bin.
pub fn restore_moved(
    callback: Option<&DeleteCallbackResult>,
    temporary: &[u16],
    aborted: bool,
    temporary_exists: bool,
) -> (result: Result<(), String>)
    ensures
        match callback {
            Some(callback) => if was_moved(*callback, temporary@, aborted, temporary_exists) {
                result is Ok
            } else if callback.result < 0 {
                result matches Err(message) && message@ == callback.message@
            } else {
                result matches Err(message) && message@
                    == "Shell did not restore the recycled item"@
            },
            None => result matches Err(message) && message@
                == "Shell did not restore the recycled item"@,
        },
{
    match callback {
        Some(callback) => {
            let at_temporary = match &callback.created_path {
                Some(path) => same_windows_path(path.as_slice(), temporary),
                None => false,
            };
            if callback.result >= 0 && callback.recycled_identity.is_some() && at_temporary
                && !aborted && temporary_exists {
                Ok(())
            } else if callback.result < 0 {
                Err(text_of(callback.message.as_str()))
            } else {
                Err(text_of("Shell did not restore the recycled item"))
            }
        },
        None => Err(text_of("Shell did not restore the recycled item")),
    }
}

/// How the last step went, from the temporary path to the original one.
#[derive(Debug)]
pub enum Placement {
    /// Something has appeared at the original path; nothing was moved.
    Occupied,
    Moved,
    /// The item could not be moved, for this reason.
    Refused(String),
}

/// The result of a restore whose item lies at its temporary path.
pub fn place_restored(
    original: &[u16],
    temporary: Vec<u16>,
    identity: FileIdentity,
    placement: Placement,
) -> (result: RestoreRecycleResult)
    ensures
        match placement {
            Placement::Moved => result is Completed,
            Placement::Occupied => result matches RestoreRecycleResult::Pending {
                temporary: t,
                identity: i,
                message,
            } && t == temporary && i == identity && message@
                == "原位置已出现同名项目，已将回收站项目安全恢复到临时位置："@
                + text::utf16_lossy(original@),
            Placement::Refused(error) => result matches RestoreRecycleResult::Pending {
                temporary: t,
                identity: i,
                message,
            } && t == temporary && i == identity && message@
                == "回收站项目已恢复，等待移回原位置："@ + error@,
        },
{
    match placement {
        Placement::Moved => RestoreRecycleResult::Completed,
        Placement::Occupied => {
            let mut message = text_of(
                "原位置已出现同名项目，已将回收站项目安全恢复到临时位置：",
            );
            let chars = decode_lossy(original);
            push_text(&mut message, string_from_chars(chars.as_slice()).as_str());
            RestoreRecycleResult::Pending { temporary, identity, message }
        },
        Placement::Refused(error) => {
            let mut message = text_of("回收站项目已恢复，等待移回原位置：");
            push_text(&mut message, error.as_str());
            RestoreRecycleResult::Pending { temporary, identity, message }
        },
    }
}

// ---- laws ----

/// Recycling never asks, never shows errors, and never deletes for good.
pub proof fn law_recycling_is_silent_and_undoable()
    ensures
        flags_for_recycling() & FOF_ALLOWUNDO == FOF_ALLOWUNDO,
        flags_for_recycling() & FOFX_RECYCLEONDELETE == FOFX_RECYCLEONDELETE,
        flags_for_recycling() & FOF_NOCONFIRMATION == FOF_NOCONFIRMATION,
        flags_for_recycling() & FOF_NOERRORUI == FOF_NOERRORUI,
        flags_for_recycling() & FOF_SILENT == FOF_SILENT,
{
    assert({
        let flags = 0x40u32 | 0x8_0000u32 | 0x10u32 | 0x400u32 | 4u32;
        flags & 0x40 == 0x40 && flags & 0x8_0000 == 0x8_0000 && flags & 0x10 == 0x10 && flags
            & 0x400 == 0x400 && flags & 4 == 4
    }) by (bit_vector);
}

/// Restoring stops at the first failure, and neither answers questions nor picks another name.
pub proof fn law_restoring_never_renames()
    ensures
        flags_for_restoring() & FOFX_EARLYFAILURE == FOFX_EARLYFAILURE,
        flags_for_restoring() & FOF_NOCONFIRMATION == 0,
        flags_for_restoring() & FOF_RENAMEONCOLLISION == 0,
{
    assert({
        let flags = 0x10_0000u32 | 0x400u32 | 4u32;
        flags & 0x10_0000 == 0x10_0000 && flags & 0x10 == 0 && flags & 8 == 0
    }) by (bit_vector);
}

/// Only an item that was recycled is known to lie in the bin.
pub proof fn law_failed_items_have_no_identity(
    item: FileOperationItemResult,
    index: int,
    path: Seq<u16>,
    initial: Map<usize, Result<(), String>>,
    queued: Seq<usize>,
    reported: Map<usize, DeleteCallbackResult>,
    perform_error: Option<Seq<char>>,
    aborted: bool,
)
    requires
        is_merged_item(item, index, path, initial, queued, reported, perform_error, aborted),
        item.result is Err,
    ensures
        item.recycled_identity is None,
{
}

/// An item of which the Shell reported success lies where the Shell said, and one that failed
/// there carries the message of the Shell, so long as nothing went wrong before.
pub proof fn law_recycled_items_keep_their_identity(
    paths: &[Vec<u16>],
    initial: HashMap<usize, Result<(), String>>,
    queued: &[usize],
    reported: HashMap<usize, DeleteCallbackResult>,
    perform_error: Option<&str>,
    aborted: bool,
    items: Vec<FileOperationItemResult>,
    i: int,
)
    requires
        call_ensures(
            merge_recycle_results,
            (paths, initial, queued, reported, perform_error, aborted),
            items,
        ),
        0 <= i < paths@.len() <= usize::MAX,
        !initial@.contains_key(i as usize),
        reported@.contains_key(i as usize),
    ensures
        items@.len() == paths@.len(),
        items@[i].index == i,
        items@[i].path@ == paths@[i]@,
        items@[i].result is Ok <==> reported@[i as usize].result >= 0,
        items@[i].result matches Err(message) ==> message@ == reported@[i as usize].message@,
        reported@[i as usize].result >= 0 ==> match reported@[i as usize].recycled_identity {
            Some(identity) => items@[i].recycled_identity matches Some(kept) && kept@ == identity@,
            None => items@[i].recycled_identity is None,
        },
        reported@[i as usize].result < 0 ==> items@[i].recycled_identity is None,
{
    let item = items@[i];
    assert(is_merged_item(
        item,
        i,
        paths@[i]@,
        initial@,
        queued@,
        reported@,
        text_view(perform_error),
        aborted,
    ));
}

/// An item that failed before it reached the Shell keeps that failure, whatever was reported; and
/// one of which nothing is known has failed, for the reason that comes first.
pub proof fn law_unreported_items_have_failed(
    paths: &[Vec<u16>],
    initial: HashMap<usize, Result<(), String>>,
    queued: &[usize],
    reported: HashMap<usize, DeleteCallbackResult>,
    perform_error: Option<&str>,
    aborted: bool,
    items: Vec<FileOperationItemResult>,
    i: int,
)
    requires
        call_ensures(
            merge_recycle_results,
            (paths, initial, queued, reported, perform_error, aborted),
            items,
        ),
        0 <= i < paths@.len() <= usize::MAX,
    ensures
        items@[i].index == i && items@[i].path@ == paths@[i]@,
        initial@.contains_key(i as usize) ==> match initial@[i as usize] {
            Ok(_) => items@[i].result is Ok,
            Err(message) => items@[i].result matches Err(kept) && kept@ == message@
                && items@[i].recycled_identity is None,
        },
        !initial@.contains_key(i as usize) && !reported@.contains_key(i as usize) ==> {
            &&& items@[i].recycled_identity is None
            &&& items@[i].result matches Err(message) && match perform_error {
                Some(error) => message@ == error@,
                None => if aborted {
                    message@ == "recycle operation aborted"@
                } else if queued@.contains(i as usize) {
                    message@ == "shell did not report a recycle result"@
                } else {
                    message@ == "item was not queued for recycling"@
                },
            }
        },
{
    let item = items@[i];
    assert(is_merged_item(
        item,
        i,
        paths@[i]@,
        initial@,
        queued@,
        reported@,
        text_view(perform_error),
        aborted,
    ));
}

/// The whole way of an item: queued, reported as recycled, and in the result of the batch with the
/// identity by which it can be restored.
pub proof fn law_a_batch_keeps_the_identities(
    batch: &mut RecycleBatch,
    index: usize,
    paths: &[Vec<u16>],
    reported: HashMap<usize, DeleteCallbackResult>,
    perform_error: Option<&str>,
    aborted: bool,
    cancelled: bool,
    result: RecycleResult,
)
    requires
        call_ensures(RecycleBatch::submitted, (batch, index, None), ()),
        !old(batch)@.initial.contains_key(index),
        call_ensures(
            RecycleBatch::finish,
            (*final(batch), paths, reported, perform_error, aborted, cancelled),
            result,
        ),
        index < paths@.len(),
        reported@.contains_key(index),
        reported@[index].result >= 0,
    ensures
        final(batch)@.queued.contains(index),
        result.aborted <==> aborted || cancelled,
        result.items@.len() == paths@.len(),
        result.items@[index as int].result is Ok,
        match reported@[index].recycled_identity {
            Some(identity) => result.items@[index as int].recycled_identity matches Some(kept)
                && kept@ == identity@,
            None => result.items@[index as int].recycled_identity is None,
        },
{
    let queued = final(batch)@.queued;
    assert(queued[old(batch)@.queued.len() as int] == index);
    assert(is_merged_item(
        result.items@[index as int],
        index as int,
        paths@[index as int]@,
        final(batch)@.initial,
        queued,
        reported@,
        text_view(perform_error),
        aborted || cancelled,
    ));
}

/// A refused item has failed with the words of the refusal, whatever is reported later.
pub proof fn law_a_refused_item_has_failed(
    batch: &mut RecycleBatch,
    index: usize,
    message: String,
    paths: &[Vec<u16>],
    reported: HashMap<usize, DeleteCallbackResult>,
    perform_error: Option<&str>,
    aborted: bool,
    cancelled: bool,
    result: RecycleResult,
)
    requires
        call_ensures(RecycleBatch::submitted, (batch, index, Some(message)), ()),
        call_ensures(
            RecycleBatch::finish,
            (*final(batch), paths, reported, perform_error, aborted, cancelled),
            result,
        ),
        index < paths@.len(),
    ensures
        final(batch)@.queued == old(batch)@.queued,
        result.items@[index as int].result matches Err(kept) && kept@ == message@,
        result.items@[index as int].recycled_identity is None,
{
    assert(is_merged_item(
        result.items@[index as int],
        index as int,
        paths@[index as int]@,
        final(batch)@.initial,
        final(batch)@.queued,
        reported@,
        text_view(perform_error),
        aborted || cancelled,
    ));
}

/// A restore is complete only where the item stands at its original path; in every other case it
/// says where the item lies now and which item that is.
pub proof fn law_a_restored_item_is_never_lost(
    original: &[u16],
    temporary: Vec<u16>,
    identity: FileIdentity,
    placement: Placement,
    result: RestoreRecycleResult,
)
    requires
        call_ensures(place_restored, (original, temporary, identity, placement), result),
    ensures
        result is Completed <==> placement is Moved,
        !(placement is Moved) ==> (result matches RestoreRecycleResult::Pending {
            temporary: t,
            identity: i,
            message,
        } && t@ == temporary@ && i == identity && message@.len() > 0),
{
    reveal_strlit("原位置已出现同名项目，已将回收站项目安全恢复到临时位置：");
    reveal_strlit("回收站项目已恢复，等待移回原位置：");
}

/// The Shell has restored an item only where it reported success and an identity, at the temporary
/// path, without having been stopped, and something is there.
pub proof fn law_a_move_needs_every_sign(
    callback: Option<&DeleteCallbackResult>,
    temporary: &[u16],
    aborted: bool,
    temporary_exists: bool,
    result: Result<(), String>,
)
    requires
        call_ensures(restore_moved, (callback, temporary, aborted, temporary_exists), result),
    ensures
        result is Ok <==> (callback matches Some(callback) && callback.result >= 0
            && callback.recycled_identity is Some && (callback.created_path matches Some(path)
            && wide::ascii_lower(path@) == wide::ascii_lower(temporary@)) && !aborted
            && temporary_exists),
        callback matches Some(told) ==> told.result < 0 ==> (result matches Err(message)
            && message@ == told.message@),
{
}

/// An item goes back to the folder that it came from, and never over something that has taken its
/// place there.
pub proof fn law_a_restore_never_overwrites(
    original: &[u16],
    cancelled: bool,
    occupied: bool,
    result: Result<Vec<u16>, String>,
)
    requires
        call_ensures(restore_folder, (original, cancelled, occupied), result),
    ensures
        cancelled || occupied ==> result is Err,
        result matches Ok(folder) ==> winpath::path_parent(original@) == Some(folder@),
        !cancelled && !occupied && winpath::path_parent(original@) is Some ==> result is Ok,
{
}

/// Recycling can be undone, puts things into the bin, and asks and shows nothing; restoring neither
/// renames nor overwrites.
pub proof fn law_recycling_can_be_undone(recycle: u32, restore: u32)
    requires
        call_ensures(recycle_flags, (), recycle),
        call_ensures(restore_flags, (), restore),
    ensures
        recycle & 0x40 != 0 && recycle & 0x8_0000 != 0,
        recycle & 0x10 != 0 && recycle & 0x400 != 0 && recycle & 4 != 0,
        restore & 0x10_0000 != 0 && restore & 0x400 != 0 && restore & 4 != 0,
        restore & 8 == 0 && restore & 0x10 == 0,
{
    assert((0x40u32 | 0x8_0000 | 0x10 | 0x400 | 4) & 0x40 != 0 && (0x40u32 | 0x8_0000 | 0x10 | 0x400
        | 4) & 0x8_0000 != 0 && (0x40u32 | 0x8_0000 | 0x10 | 0x400 | 4) & 0x10 != 0 && (0x40u32
        | 0x8_0000 | 0x10 | 0x400 | 4) & 0x400 != 0 && (0x40u32 | 0x8_0000 | 0x10 | 0x400 | 4) & 4
        != 0) by (bit_vector);
    assert((0x10_0000u32 | 0x400 | 4) & 0x10_0000 != 0 && (0x10_0000u32 | 0x400 | 4) & 0x400 != 0
        && (0x10_0000u32 | 0x400 | 4) & 4 != 0 && (0x10_0000u32 | 0x400 | 4) & 8 == 0 && (
    0x10_0000u32 | 0x400 | 4) & 0x10 == 0) by (bit_vector);
}

/// A cancelled item is refused, a path is handed on with its mark, and an identity must end with an
/// empty entry.
pub proof fn law_what_is_handed_to_the_shell_is_checked(
    cancelled: bool,
    permission: Result<(), u32>,
    path: &[u16],
    units: Result<Vec<u16>, IoError>,
    identity: &[u8],
    valid: Result<(), String>,
)
    requires
        call_ensures(item_permission, (cancelled,), permission),
        call_ensures(shell_path, (path,), units),
        call_ensures(shell_item_from_pidl, (identity,), valid),
    ensures
        permission is Err <==> cancelled,
        permission matches Err(code) ==> code == 0x8000_4004,
        units is Ok <==> path@.len() > 0 && !path@.contains(0),
        units matches Ok(marked) ==> marked@ == path@.push(0),
        valid is Ok <==> identity@.len() >= 2 && identity@[identity@.len() - 2] == 0
            && identity@.last() == 0,
{
}

/// Paths of the system are compared unit by unit, without regard to the case of ASCII letters.
pub proof fn law_system_paths_ignore_case(left: &[u16], right: &[u16], same: bool)
    requires
        call_ensures(same_windows_path, (left, right), same),
    ensures
        same <==> left@.len() == right@.len() && forall|i: int|
            0 <= i < left@.len() ==> {
                ||| #[trigger] left@[i] == right@[i]
                ||| 0x41 <= left@[i] <= 0x5a && right@[i] == left@[i] + 0x20
                ||| 0x41 <= right@[i] <= 0x5a && left@[i] == right@[i] + 0x20
            },
{
    let a = wide::ascii_lower(left@);
    let b = wide::ascii_lower(right@);
    if same {
        assert(a.len() == b.len());
        assert forall|i: int| 0 <= i < left@.len() implies {
            ||| #[trigger] left@[i] == right@[i]
            ||| 0x41 <= left@[i] <= 0x5a && right@[i] == left@[i] + 0x20
            ||| 0x41 <= right@[i] <= 0x5a && left@[i] == right@[i] + 0x20
        } by {
            assert(a[i] == b[i]);
        }
    } else if left@.len() == right@.len() && forall|i: int|
        0 <= i < left@.len() ==> {
            ||| #[trigger] left@[i] == right@[i]
            ||| 0x41 <= left@[i] <= 0x5a && right@[i] == left@[i] + 0x20
            ||| 0x41 <= right@[i] <= 0x5a && left@[i] == right@[i] + 0x20
        } {
        assert forall|i: int| 0 <= i < a.len() implies a[i] == b[i] by {
            assert(left@[i] == left@[i]);
        }
        assert(a =~= b);
    }
}

/// Where a batch fails as a whole, every item has failed, for that reason and without an identity.
pub proof fn law_a_failed_batch_fails_every_item(
    paths: &[Vec<u16>],
    message: &str,
    result: RecycleResult,
    i: int,
)
    requires
        call_ensures(failed_result, (paths, message), result),
        0 <= i < paths@.len(),
    ensures
        result.items@.len() == paths@.len(),
        result.items@[i].index == i,
        result.items@[i].path@ == paths@[i]@,
        result.items@[i].result is Err && result.items@[i].result->Err_0@ == message@,
        result.items@[i].recycled_identity is None,
{
    assert(winpath::path_views(paths@)[i] == paths@[i]@);
    let item = result.items@[i];
}

/// A restored item is first moved beside its place, under a name of its own that ends with its name.
pub proof fn law_a_restore_goes_beside_its_place(
    folder: Seq<u16>,
    name: Seq<u16>,
    original: &[u16],
    taken: &[bool],
    step: NameStep,
)
    requires
        winpath::plain_folder(folder),
        winpath::plain_name(name),
        original@ == folder.push(0x5c) + name,
        taken@.len() < u64::MAX,
        call_ensures(unique_restore_path, (original, taken), step),
    ensures
        step is Free <==> exists|i: int| 0 <= i < taken@.len() && !(#[trigger] taken@[i]),
        exists|head: Seq<u16>|
            (if step is Free {
                step->Free_0@
            } else {
                step->Probe_0@
            }) == winpath::joined(folder, #[trigger] (head + name)),
{
    winpath::lemma_below(folder, name);
    free_name::law_first_free_is_free(taken@);
    let first = free_name::first_free(taken@);
    let head = text::utf16_encoded(".asterfiles-restore-"@) + text::utf16_encoded(
        text::decimal((first + 1) as nat),
    ) + seq![0x2du16];
    assert(restore_candidate(original@, (first + 1) as nat) == winpath::joined(
        folder,
        head + name,
    ));
    if first < taken@.len() {
        assert(!taken@[first]);
    }
}

} // verus!
