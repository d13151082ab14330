//! Files on the clipboard.
use vstd::prelude::*;

use crate::bytes;
use crate::bytes::push_u32;
use crate::errors;
use crate::errors::{ErrorKind, IoError};
use crate::windows::data_format;
use crate::windows::data_format::{encode_dropfiles, CF_HDROP, TYMED_HGLOBAL};
use crate::windows::drag_drop::effects;
use crate::windows::drag_drop::effects::{DROPEFFECT_COPY, DROPEFFECT_MOVE};
use crate::winpath;

verus! {

/// How often the clipboard is tried while another program holds it.
pub const CLIPBOARD_RETRIES: u64 = 8;

#[derive(Debug, Clone, Copy, PartialEq, Eq, Structural)]
pub enum ClipboardOperation {
    Copy,
    Move,
}

#[derive(Debug, Clone, PartialEq, Eq)]
pub struct ClipboardFileList {
    pub paths: Vec<Vec<u16>>,
    pub operation: ClipboardOperation,
}

pub open spec fn operation_effect(operation: ClipboardOperation) -> u32 {
    match operation {
        ClipboardOperation::Copy => DROPEFFECT_COPY,
        ClipboardOperation::Move => DROPEFFECT_MOVE,
    }
}

/// The operation that an effect on the clipboard asks for; copying where none is there.
pub open spec fn effect_operation(effect: Option<u32>) -> ClipboardOperation {
    match effect {
        Some(effect) => if effects::has_bits(effect, DROPEFFECT_MOVE) {
            ClipboardOperation::Move
        } else {
            ClipboardOperation::Copy
        },
        None => ClipboardOperation::Copy,
    }
}

/// The formats that put files on the clipboard: the list of files, and the preferred effect under
/// the format that the system has given out for it.
pub fn file_list_formats(
    paths: &[Vec<u16>],
    operation: ClipboardOperation,
    effect_format: u16,
) -> (formats: Result<Vec<(u16, Vec<u8>)>, IoError>)
    ensures
        ({
            let views = winpath::path_views(paths@);
            match formats {
                Ok(formats) => {
                    &&& paths@.len() > 0
                    &&& data_format::all_listable(views)
                    &&& formats@.len() == 2
                    &&& formats@[0].0 == CF_HDROP
                    &&& formats@[0].1@ == data_format::file_list(views)
                    &&& formats@[1].0 == effect_format
                    &&& formats@[1].1@ == bytes::bytes32(operation_effect(operation))
                },
                Err(error) => if paths@.len() == 0 {
                    errors::fails_with(
                        error,
                        ErrorKind::InvalidInput,
                        "clipboard file list is empty"@,
                    )
                } else {
                    !data_format::all_listable(views) && errors::fails_with(
                        error,
                        ErrorKind::InvalidInput,
                        "invalid clipboard path"@,
                    )
                },
            }
        }),
{
    if paths.len() == 0 {
        return Err(IoError::new(ErrorKind::InvalidInput, "clipboard file list is empty"));
    }
    match encode_dropfiles(paths, "invalid clipboard path") {
        Err(error) => Err(error),
        Ok(list) => {
            let effect: u32 = match operation {
                ClipboardOperation::Copy => DROPEFFECT_COPY,
                ClipboardOperation::Move => DROPEFFECT_MOVE,
            };
            let mut effect_bytes: Vec<u8> = Vec::new();
            push_u32(&mut effect_bytes, effect);
            assert(effect_bytes@ =~= bytes::bytes32(effect));
            let mut formats: Vec<(u16, Vec<u8>)> = Vec::new();
            formats.push((CF_HDROP, list));
            formats.push((effect_format, effect_bytes));
            Ok(formats)
        },
    }
}

/// The number of bytes before the names in a list of files.
pub const DROPFILES_BYTES: u64 = 20;

/// A list of files on the clipboard must be in memory and no shorter than its head; `size` is
/// missing where the memory is not valid.
pub fn check_dropfiles(tymed: u32, size: Option<u64>) -> (result: Result<(), IoError>)
    ensures
        if tymed != TYMED_HGLOBAL {
            result matches Err(error) && errors::fails_with(
                error,
                ErrorKind::Other,
                "clipboard file list is not HGLOBAL data"@,
            )
        } else if size is None || size->0 < DROPFILES_BYTES {
            result matches Err(error) && errors::fails_with(
                error,
                ErrorKind::Other,
                "clipboard file list is malformed"@,
            )
        } else {
            result is Ok
        },
{
    if tymed != TYMED_HGLOBAL {
        return Err(IoError::new(ErrorKind::Other, "clipboard file list is not HGLOBAL data"));
    }
    match size {
        Some(size) if size >= DROPFILES_BYTES => Ok(()),
        _ => Err(IoError::new(ErrorKind::Other, "clipboard file list is malformed")),
    }
}

/// What was found on the clipboard: the files, and the preferred effect if there is one.
pub fn file_list_found(paths: Vec<Vec<u16>>, effect: Option<u32>) -> (list: ClipboardFileList)
    ensures
        list.paths == paths,
        list.operation == effect_operation(effect),
{
    let operation = match effect {
        Some(effect) => if effect & DROPEFFECT_MOVE != 0 {
            ClipboardOperation::Move
        } else {
            ClipboardOperation::Copy
        },
        None => ClipboardOperation::Copy,
    };
    ClipboardFileList { paths, operation }
}

/// How many milliseconds to wait after a failed attempt, counted from zero; nothing after the last.
pub fn retry_delay(attempt: u64) -> (delay: Option<u64>)
    ensures
        delay == if attempt + 1 < CLIPBOARD_RETRIES {
            Some((5 * (attempt + 1)) as u64)
        } else {
            None
        },
{
    if attempt < CLIPBOARD_RETRIES - 1 {
        Some(5 * (attempt + 1))
    } else {
        None
    }
}

/// The operation survives its way over the clipboard.
pub proof fn law_operation_round_trip(operation: ClipboardOperation)
    ensures
        effect_operation(Some(operation_effect(operation))) == operation,
{
    assert(1u32 & 2 == 0) by (bit_vector);
    assert(2u32 & 2 != 0) by (bit_vector);
}

/// What is put on the clipboard is found there again: every path in its order, and whether it is to
/// be copied or moved.
pub proof fn law_clipped_files_are_found(
    paths: &[Vec<u16>],
    operation: ClipboardOperation,
    effect_format: u16,
    formats: Vec<(u16, Vec<u8>)>,
    found: Vec<Vec<u16>>,
    list: ClipboardFileList,
)
    requires
        call_ensures(file_list_formats, (paths, operation, effect_format), Ok(formats)),
        call_ensures(
            file_list_found,
            (found, Some(bytes::le32(formats@[1].1@, 0))),
            list,
        ),
    ensures
        formats@.len() == 2,
        formats@[0].0 == 15 && formats@[1].0 == effect_format,
        formats@[0].1@.len() >= 20,
        data_format::listed_paths(
            bytes::units_in(formats@[0].1@.subrange(20, formats@[0].1@.len() as int)),
        ) == winpath::path_views(paths@),
        list.paths@ == found@,
        list.operation == operation,
{
    let views = winpath::path_views(paths@);
    let b = formats@[1].1@;
    let none = Seq::<u8>::empty();
    assert(none + bytes::bytes32(operation_effect(operation)) + none =~= b);
    bytes::lemma_le32(none, operation_effect(operation), none);
    law_operation_round_trip(operation);
    let all = formats@[0].1@;
    let names = data_format::name_list(views).push(0);
    assert(data_format::list_header().len() == 20);
    assert(all.subrange(20, all.len() as int) =~= bytes::unit_bytes(names));
    bytes::law_units_round_trip(names);
    data_format::law_file_list_preserves_paths(views);
}

/// Files on the clipboard are moved exactly where the effect there asks for a move.
pub proof fn law_a_cut_is_a_move(paths: Vec<Vec<u16>>, effect: Option<u32>, list: ClipboardFileList)
    requires
        call_ensures(file_list_found, (paths, effect), list),
    ensures
        list.paths@ == paths@,
        list.operation == ClipboardOperation::Move <==> (effect matches Some(mask) && mask & 2
            != 0),
{
}

/// The clipboard is asked again after ever longer waits, and no more than seven times.
pub proof fn law_the_clipboard_is_given_up(attempt: u64, delay: Option<u64>)
    requires
        call_ensures(retry_delay, (attempt,), delay),
    ensures
        delay is Some <==> attempt < 7,
        delay matches Some(ms) ==> ms == 5 * (attempt + 1),
{
}

} // verus!
