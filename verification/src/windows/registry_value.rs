//! Texts that are read from the registry in two steps: their size, then the text itself.
use vstd::prelude::*;

use crate::text;
use crate::text::{decode_lossy, string_from_chars};
use crate::wide;
use crate::wide::take_before_nul;

verus! {

pub const ERROR_SUCCESS: u32 = 0;

pub const ERROR_NO_MORE_ITEMS: u32 = 259;

/// The text was there, is no shorter than its closing zero, and could be read.
pub open spec fn was_read(asked: u32, bytes: u32, read: u32) -> bool {
    asked == ERROR_SUCCESS && bytes >= 2 && read == ERROR_SUCCESS
}

/// The number of units that are needed for a text, given the answer to the question for its size.
pub fn buffer_units(asked: u32, bytes: u32) -> (units: Option<u32>)
    ensures
        units == if asked == ERROR_SUCCESS && bytes >= 2 {
            Some(bytes / 2)
        } else {
            None
        },
{
    if asked != ERROR_SUCCESS || bytes < 2 {
        None
    } else {
        Some(bytes / 2)
    }
}

/// A text of the registry as it is, up to its first zero.
pub fn reg_string(asked: u32, bytes: u32, read: u32, buffer: &[u16]) -> (found: Option<Vec<u16>>)
    ensures
        found is Some <==> was_read(asked, bytes, read),
        found matches Some(units) ==> units@ == wide::before_nul(buffer@),
{
    if buffer_units(asked, bytes).is_none() || read != ERROR_SUCCESS {
        return None;
    }
    Some(take_before_nul(buffer))
}

/// A text of the registry as it is shown.
pub fn registry_string(asked: u32, bytes: u32, read: u32, buffer: &[u16]) -> (found: Option<String>)
    ensures
        found is Some <==> was_read(asked, bytes, read),
        found matches Some(shown) ==> shown@ == text::utf16_lossy(wide::before_nul(buffer@)),
{
    match reg_string(asked, bytes, read, buffer) {
        Some(units) => {
            let chars = decode_lossy(units.as_slice());
            Some(string_from_chars(chars.as_slice()))
        },
        None => None,
    }
}

/// What follows the question for the next key below a key.
#[derive(Debug, Clone, PartialEq, Eq)]
pub enum SubkeyStep {
    /// This is the next one.
    Found(String),
    /// There are no more.
    End,
    /// They cannot be listed.
    Failed,
}

pub fn registry_subkeys(status: u32, name: &[u16]) -> (step: SubkeyStep)
    ensures
        if status == ERROR_NO_MORE_ITEMS {
            step is End
        } else if status != ERROR_SUCCESS {
            step is Failed
        } else {
            step matches SubkeyStep::Found(shown) && shown@ == text::utf16_lossy(name@)
        },
{
    if status == ERROR_NO_MORE_ITEMS {
        return SubkeyStep::End;
    }
    if status != ERROR_SUCCESS {
        return SubkeyStep::Failed;
    }
    let chars = decode_lossy(name);
    SubkeyStep::Found(string_from_chars(chars.as_slice()))
}

/// A text that was read is what stands before its mark, and the same in either form; nothing is read
/// where the system reports an error or there is no room for one unit.
pub proof fn law_a_value_ends_at_its_mark(
    asked: u32,
    bytes: u32,
    read: u32,
    value: Seq<u16>,
    junk: Seq<u16>,
    buffer: &[u16],
    units: Option<u32>,
    found: Option<Vec<u16>>,
    shown: Option<String>,
)
    requires
        !value.contains(0),
        buffer@ == value.push(0) + junk,
        call_ensures(buffer_units, (asked, bytes), units),
        call_ensures(reg_string, (asked, bytes, read, buffer), found),
        call_ensures(registry_string, (asked, bytes, read, buffer), shown),
    ensures
        units is Some <==> asked == 0 && bytes >= 2,
        units matches Some(n) ==> n == bytes / 2,
        found is Some <==> units is Some && read == 0,
        shown is Some <==> found is Some,
        found matches Some(text) ==> text@ == value,
        shown matches Some(text) ==> text@ == text::utf16_lossy(value),
{
    wide::lemma_marked(value, junk);
}

/// The list of keys goes on while the system succeeds, ends where it has no more, and fails otherwise.
pub proof fn law_the_keys_end_where_there_are_no_more(status: u32, name: &[u16], step: SubkeyStep)
    requires
        call_ensures(registry_subkeys, (status, name), step),
    ensures
        step is Found <==> status == 0,
        step is End <==> status == 259,
        step is Failed <==> status != 0 && status != 259,
        step matches SubkeyStep::Found(shown) ==> shown@ == text::utf16_lossy(name@),
{
}

} // verus!
