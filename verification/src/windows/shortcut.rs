//! Names and paths of new shortcuts.
use vstd::prelude::*;

use crate::errors;
use crate::errors::{ErrorKind, IoError};
use crate::text;
use crate::text::{decimal_text, encode_text};
use crate::wide::{contains_unit, push_units};
use crate::windows::free_name;
use crate::windows::free_name::{find_free, NameStep};
use crate::winpath;
use crate::winpath::{file_stem_of, join, set_extension_of, units_copy_all};

verus! {

/// The extension of shortcuts, in UTF-16 units.
pub open spec fn lnk() -> Seq<u16> {
    seq![0x6cu16, 0x6e, 0x6b]
}

/// A counter behind a name: nothing for the first, ` (2)` for the second, and so on.
pub open spec fn counter_suffix(index: nat) -> Seq<u16> {
    if index <= 1 {
        Seq::empty()
    } else {
        seq![0x20u16, 0x28] + text::utf16_encoded(text::decimal(index)) + seq![0x29u16]
    }
}

/// The path that a shortcut for a source with this stem gets in a folder at the n-th try.
pub open spec fn candidate(target: Seq<u16>, stem: Seq<u16>, index: nat) -> Seq<u16> {
    winpath::with_extension(winpath::joined(target, stem + counter_suffix(index)), lnk())
}

/// The path of the n-th try.
pub fn shortcut_candidate(target: &[u16], stem: &[u16], index: u64) -> (path: Vec<u16>)
    ensures
        path@ == candidate(target@, stem@, index as nat),
{
    let mut name = units_copy_all(stem);
    if index > 1 {
        name.push(0x20);
        name.push(0x28);
        let digits = decimal_text(index);
        let units = encode_text(digits.as_str());
        push_units(&mut name, units.as_slice());
        name.push(0x29);
    }
    assert(name@ =~= stem@ + counter_suffix(index as nat));
    let mut extension: Vec<u16> = Vec::new();
    extension.push(0x6c);
    extension.push(0x6e);
    extension.push(0x6b);
    assert(extension@ =~= lnk());
    let joined = join(target, name.as_slice());
    set_extension_of(joined.as_slice(), extension.as_slice())
}

/// The path for a new shortcut, given which of the paths tried so far exist.
pub fn shortcut_destination(target: &[u16], source: &[u16], taken: &[bool]) -> (result: Result<
    NameStep,
    IoError,
>)
    requires
        taken@.len() < u64::MAX,
    ensures
        match (result, winpath::path_stem(source@)) {
            (Ok(step), Some(stem)) => free_name::is_step(
                step,
                taken@,
                candidate(target@, stem, (free_name::first_free(taken@) + 1) as nat),
            ),
            (Err(error), None) => errors::fails_with(
                error,
                ErrorKind::InvalidInput,
                "shortcut source has no name"@,
            ),
            _ => false,
        },
{
    let stem = match file_stem_of(source) {
        Some(stem) => stem,
        None => {
            return Err(IoError::new(ErrorKind::InvalidInput, "shortcut source has no name"));
        },
    };
    let n: usize = taken.len();
    let at: usize = find_free(taken);
    let path = shortcut_candidate(target, stem.as_slice(), at as u64 + 1);
    if at < n {
        Ok(NameStep::Free(path))
    } else {
        Ok(NameStep::Probe(path))
    }
}

/// A path as the Shell takes it, with a NUL at its end.
pub fn wide(path: &[u16]) -> (result: Result<Vec<u16>, IoError>)
    ensures
        match result {
            Ok(units) => path@.len() > 0 && !path@.contains(0) && units@ == path@.push(0),
            Err(error) => errors::fails_with(
                error,
                ErrorKind::InvalidInput,
                if path@.len() == 0 {
                    "empty shortcut path"@
                } else {
                    "shortcut path contains NUL"@
                },
            ) && (path@.len() == 0 || path@.contains(0)),
        },
{
    if path.len() == 0 {
        return Err(IoError::new(ErrorKind::InvalidInput, "empty shortcut path"));
    }
    if contains_unit(path, 0) {
        return Err(IoError::new(ErrorKind::InvalidInput, "shortcut path contains NUL"));
    }
    let mut units = units_copy_all(path);
    units.push(0);
    Ok(units)
}

/// A shortcut is placed in the target folder under the stem of its source, with the extension of
/// shortcuts: plain at the first try, and with a counter in brackets at every other.
pub proof fn law_shortcuts_are_named_after_their_source(
    folder: &[u16],
    stem: &[u16],
    index: u64,
    name: Seq<u16>,
    path: Vec<u16>,
)
    requires
        winpath::plain_folder(folder@),
        winpath::plain_name(name),
        !name.contains(0x2e),
        index <= 1 ==> name == stem@,
        index > 1 ==> name == stem@ + seq![0x20u16, 0x28] + text::utf16_encoded(
            text::decimal(index as nat),
        ) + seq![0x29u16],
        call_ensures(shortcut_candidate, (folder, stem, index), path),
    ensures
        path@ == folder@.push(0x5c) + (name + seq![0x2eu16, 0x6c, 0x6e, 0x6b]),
{
    assert(stem@ + counter_suffix(index as nat) =~= name);
    winpath::lemma_below(folder@, name);
    winpath::lemma_no_dot(name);
    let s = folder@.push(0x5c) + name;
    assert(s.subrange(0, folder@.len() as int + 1 + name.len()) =~= s);
    assert(s.push(0x2e) + lnk() =~= folder@.push(0x5c) + (name + seq![0x2eu16, 0x6c, 0x6e, 0x6b]));
}

/// Whether a path for a shortcut is to be probed or is free is told by the answers so far; the path is
/// that of the first try which is not known to be taken.
pub proof fn law_a_taken_name_is_passed_over(
    target: &[u16],
    source: &[u16],
    taken: &[bool],
    stem: &[u16],
    at: u64,
    candidate: Vec<u16>,
    result: Result<NameStep, IoError>,
)
    requires
        taken@.len() < u64::MAX,
        winpath::path_stem(source@) == Some(stem@),
        at >= 1,
        at - 1 <= taken@.len(),
        forall|i: int| 0 <= i < at - 1 ==> #[trigger] taken@[i],
        at - 1 < taken@.len() ==> !taken@[at - 1],
        call_ensures(shortcut_candidate, (target, stem, at), candidate),
        call_ensures(shortcut_destination, (target, source, taken), result),
    ensures
        result is Ok,
        at - 1 < taken@.len() ==> result->Ok_0 is Free && result->Ok_0->Free_0@ == candidate@,
        at - 1 == taken@.len() ==> result->Ok_0 is Probe && result->Ok_0->Probe_0@ == candidate@,
{
    free_name::law_first_free_is_free(taken@);
    let first = free_name::first_free(taken@);
    if first < at - 1 {
        assert(taken@[first]);
    }
    if at - 1 < first {
        assert(taken@[at - 1]);
    }
}

/// A path is handed on with its mark exactly where it is there and holds none.
pub proof fn law_marked_paths_hold_no_mark(path: &[u16], result: Result<Vec<u16>, IoError>)
    requires
        call_ensures(wide, (path,), result),
    ensures
        result is Ok <==> path@.len() > 0 && !path@.contains(0),
        result matches Ok(units) ==> units@ == path@.push(0),
{
}

} // verus!
