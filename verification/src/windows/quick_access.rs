//! Pinning folders to the Quick access list of the Shell.
use vstd::prelude::*;

use crate::errors;
use crate::errors::{ErrorKind, IoError};
use crate::platform::KnownLocation;
use crate::text;
use crate::text::{chars_eq, decode_lossy, lower_chars};
use crate::winpath::units_copy_all;

verus! {

#[derive(Debug, Clone, Copy, PartialEq, Eq, Structural)]
pub enum ChangeResult {
    Changed,
    Unchanged,
}

/// Two paths name the same folder when their texts agree but for ASCII case.
pub open spec fn equal_paths(left: Seq<u16>, right: Seq<u16>) -> bool {
    text::ascii_lower_text(text::utf16_lossy(left)) == text::ascii_lower_text(
        text::utf16_lossy(right),
    )
}

/// The list holds an entry for the path.
pub open spec fn listed(items: Seq<KnownLocation>, path: Seq<u16>) -> bool {
    exists|i: int| 0 <= i < items.len() && equal_paths(#[trigger] items[i].path@, path)
}

pub fn paths_equal(left: &[u16], right: &[u16]) -> (equal: bool)
    ensures
        equal == equal_paths(left@, right@),
{
    let left_text = decode_lossy(left);
    let right_text = decode_lossy(right);
    let left_lower = lower_chars(left_text.as_slice());
    let right_lower = lower_chars(right_text.as_slice());
    chars_eq(left_lower.as_slice(), right_lower.as_slice())
}

/// The position of the first entry for a path.
fn find(items: &[KnownLocation], path: &[u16]) -> (found: Option<usize>)
    ensures
        found is Some <==> listed(items@, path@),
        found matches Some(at) ==> at < items@.len() && equal_paths(items@[at as int].path@, path@)
            && forall|i: int| 0 <= i < at ==> !equal_paths(#[trigger] items@[i].path@, path@),
{
    let n: usize = items.len();
    let mut i: usize = 0;
    while i < n
        invariant
            n == items@.len(),
            i <= n,
            forall|j: int| 0 <= j < i ==> !equal_paths(#[trigger] items@[j].path@, path@),
        decreases n - i,
    {
        if paths_equal(items[i].path.as_slice(), path) {
            return Some(i);
        }
        i += 1;
    }
    None
}

pub fn contains(items: &[KnownLocation], path: &[u16]) -> (found: bool)
    ensures
        found == listed(items@, path@),
{
    find(items, path).is_some()
}

/// The first step of pinning a folder, given what is pinned: `None` where there is something to do.
pub fn pin(before: &[KnownLocation], path: &[u16]) -> (result: Option<ChangeResult>)
    ensures
        result == if listed(before@, path@) {
            Some(ChangeResult::Unchanged)
        } else {
            None
        },
{
    if contains(before, path) {
        Some(ChangeResult::Unchanged)
    } else {
        None
    }
}

/// Only folders can be pinned.
pub fn pin_accepts(is_directory: bool) -> (result: Result<(), IoError>)
    ensures
        result is Ok <==> is_directory,
        result matches Err(error) ==> errors::fails_with(
            error,
            ErrorKind::InvalidInput,
            "Quick access accepts folders only"@,
        ),
{
    if is_directory {
        Ok(())
    } else {
        Err(IoError::new(ErrorKind::InvalidInput, "Quick access accepts folders only"))
    }
}

/// The last step of pinning a folder: the Shell must list it now.
pub fn pin_finish(after: &[KnownLocation], path: &[u16]) -> (result: Result<ChangeResult, IoError>)
    ensures
        match result {
            Ok(change) => listed(after@, path@) && change == ChangeResult::Changed,
            Err(error) => !listed(after@, path@) && errors::fails_with(
                error,
                ErrorKind::Other,
                "Windows Shell did not pin the folder"@,
            ),
        },
{
    if contains(after, path) {
        Ok(ChangeResult::Changed)
    } else {
        Err(IoError::new(ErrorKind::Other, "Windows Shell did not pin the folder"))
    }
}

/// The first step of unpinning a folder: the path under which the Shell lists it, if it does.
pub fn unpin(before: &[KnownLocation], path: &[u16]) -> (shell_path: Option<Vec<u16>>)
    ensures
        shell_path is Some <==> listed(before@, path@),
        shell_path matches Some(shell_path) ==> exists|i: int|
            {
                &&& 0 <= i < before@.len()
                &&& shell_path@ == #[trigger] before@[i].path@
                &&& equal_paths(shell_path@, path@)
                &&& forall|j: int| 0 <= j < i ==> !equal_paths(#[trigger] before@[j].path@, path@)
            },
{
    match find(before, path) {
        Some(at) => Some(units_copy_all(before[at].path.as_slice())),
        None => None,
    }
}

/// The last step of unpinning a folder: the Shell must not list it any more.
pub fn unpin_finish(after: &[KnownLocation], path: &[u16]) -> (result: Result<
    ChangeResult,
    IoError,
>)
    ensures
        match result {
            Ok(change) => !listed(after@, path@) && change == ChangeResult::Changed,
            Err(error) => listed(after@, path@) && errors::fails_with(
                error,
                ErrorKind::Other,
                "Windows Shell did not unpin the folder"@,
            ),
        },
{
    if contains(after, path) {
        Err(IoError::new(ErrorKind::Other, "Windows Shell did not unpin the folder"))
    } else {
        Ok(ChangeResult::Changed)
    }
}

/// Naming the same folder is an equivalence.
pub proof fn law_equal_paths_is_an_equivalence(a: Seq<u16>, b: Seq<u16>, c: Seq<u16>)
    ensures
        equal_paths(a, a),
        equal_paths(a, b) ==> equal_paths(b, a),
        equal_paths(a, b) && equal_paths(b, c) ==> equal_paths(a, c),
{
}

/// Pinning a folder that is listed changes nothing, and one that is not is pinned; whether this went
/// well is seen by whether it is then listed.
pub proof fn law_pinning_ends_listed(
    before: &[KnownLocation],
    after: &[KnownLocation],
    path: &[u16],
    was_listed: bool,
    is_listed: bool,
    result: Option<ChangeResult>,
    finished: Result<ChangeResult, IoError>,
    accepted: Result<(), IoError>,
    is_directory: bool,
)
    requires
        call_ensures(contains, (before, path), was_listed),
        call_ensures(contains, (after, path), is_listed),
        call_ensures(pin, (before, path), result),
        call_ensures(pin_finish, (after, path), finished),
        call_ensures(pin_accepts, (is_directory,), accepted),
    ensures
        result == Some(ChangeResult::Unchanged) <==> was_listed,
        result is None <==> !was_listed,
        finished is Ok <==> is_listed,
        finished is Ok ==> finished->Ok_0 == ChangeResult::Changed,
        accepted is Ok <==> is_directory,
{
}

/// The entry that is taken off the list is the first one for that path, and taking it off went well
/// where the path is then listed no more.
pub proof fn law_unpinning_ends_unlisted(
    before: &[KnownLocation],
    after: &[KnownLocation],
    path: &[u16],
    was_listed: bool,
    is_listed: bool,
    taken: Option<Vec<u16>>,
    finished: Result<ChangeResult, IoError>,
    entry: &[u16],
    same: bool,
)
    requires
        call_ensures(contains, (before, path), was_listed),
        call_ensures(contains, (after, path), is_listed),
        call_ensures(unpin, (before, path), taken),
        call_ensures(unpin_finish, (after, path), finished),
        taken is Some ==> entry@ == taken->0@,
        call_ensures(paths_equal, (entry, path), same),
    ensures
        taken is Some <==> was_listed,
        taken is Some ==> same,
        taken is Some ==> exists|i: int|
            0 <= i < before@.len() && (#[trigger] before@[i]).path@ == taken->0@,
        finished is Ok <==> !is_listed,
        finished is Ok ==> finished->Ok_0 == ChangeResult::Changed,
{
}

/// An entry is for a path exactly where the two are equal but for the case of ASCII letters; one that
/// is the very same always is.
pub proof fn law_an_entry_is_found_by_its_path(
    items: &[KnownLocation],
    path: &[u16],
    found: bool,
    i: int,
    entry: &[u16],
    same: bool,
)
    requires
        0 <= i < items@.len(),
        entry@ == items@[i].path@,
        call_ensures(contains, (items, path), found),
        call_ensures(paths_equal, (entry, path), same),
    ensures
        same ==> found,
        entry@ == path@ ==> same,
        items@.len() == 1 && found ==> same,
{
    if items@.len() == 1 && found {
        let k = choose|k: int|
            0 <= k < items@.len() && equal_paths(#[trigger] items@[k].path@, path@);
        assert(k == 0);
    }
}

proof fn lemma_plain_units(units: Seq<u16>)
    requires
        forall|i: int| 0 <= i < units.len() ==> #[trigger] units[i] < 0xd800,
    ensures
        text::utf16_lossy(units).len() == units.len(),
        forall|i: int|
            0 <= i < units.len() ==> (#[trigger] text::utf16_lossy(units)[i]) as int == units[i],
    decreases units.len(),
{
    if units.len() > 0 {
        let rest = units.subrange(1, units.len() as int);
        assert forall|i: int| 0 <= i < rest.len() implies #[trigger] rest[i] < 0xd800 by {
            assert(rest[i] == units[i + 1]);
        }
        lemma_plain_units(rest);
        assert(units[0] < 0xd800);
        assert forall|i: int| 0 <= i < units.len() implies (
        #[trigger] text::utf16_lossy(units)[i]) as int == units[i] by {
            if i > 0 {
                assert(text::utf16_lossy(units)[i] == text::utf16_lossy(rest)[i - 1]);
                assert(rest[i - 1] == units[i]);
            }
        }
    }
}

pub proof fn lemma_paths_without_case(left: Seq<u16>, right: Seq<u16>)
    requires
        forall|i: int| 0 <= i < left.len() ==> #[trigger] left[i] < 0xd800,
        forall|i: int| 0 <= i < right.len() ==> #[trigger] right[i] < 0xd800,
    ensures
        equal_paths(left, right) <==> left.len() == right.len() && forall|i: int|
            0 <= i < left.len() ==> {
                ||| #[trigger] left[i] == right[i]
                ||| 0x41 <= left[i] <= 0x5a && right[i] == left[i] + 0x20
                ||| 0x41 <= right[i] <= 0x5a && left[i] == right[i] + 0x20
            },
{
    lemma_plain_units(left);
    lemma_plain_units(right);
    let a = text::utf16_lossy(left);
    let b = text::utf16_lossy(right);
    let la = text::ascii_lower_text(a);
    let lb = text::ascii_lower_text(b);
    if la == lb {
        assert(la.len() == lb.len());
        assert forall|i: int| 0 <= i < left.len() implies {
            ||| #[trigger] left[i] == right[i]
            ||| 0x41 <= left[i] <= 0x5a && right[i] == left[i] + 0x20
            ||| 0x41 <= right[i] <= 0x5a && left[i] == right[i] + 0x20
        } by {
            assert(la[i] == lb[i]);
            assert(a[i] as int == left[i] && b[i] as int == right[i]);
        }
    } else if left.len() == right.len() && forall|i: int|
        0 <= i < left.len() ==> {
            ||| #[trigger] left[i] == right[i]
            ||| 0x41 <= left[i] <= 0x5a && right[i] == left[i] + 0x20
            ||| 0x41 <= right[i] <= 0x5a && left[i] == right[i] + 0x20
        } {
        assert forall|i: int| 0 <= i < la.len() implies la[i] == lb[i] by {
            assert(left[i] < 0xd800);
            assert(a[i] as int == left[i] && b[i] as int == right[i]);
        }
        assert(la =~= lb);
    }
}

/// Two paths are the same exactly where they are equal unit by unit but for the case of ASCII letters.
/// (Units from the range of surrogates are compared as the text that they stand for.)
pub proof fn law_paths_are_compared_without_case(left: &[u16], right: &[u16], equal: bool)
    requires
        forall|i: int| 0 <= i < left@.len() ==> #[trigger] left@[i] < 0xd800,
        forall|i: int| 0 <= i < right@.len() ==> #[trigger] right@[i] < 0xd800,
        call_ensures(paths_equal, (left, right), equal),
    ensures
        equal <==> left@.len() == right@.len() && forall|i: int|
            0 <= i < left@.len() ==> {
                ||| #[trigger] left@[i] == right@[i]
                ||| 0x41 <= left@[i] <= 0x5a && right@[i] == left@[i] + 0x20
                ||| 0x41 <= right@[i] <= 0x5a && left@[i] == right@[i] + 0x20
            },
{
    lemma_paths_without_case(left@, right@);
}

} // verus!
