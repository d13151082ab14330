//! The classic context menu of the Shell: its items, and what is asked of it.
use vstd::prelude::*;

use crate::errors;
use crate::errors::{ErrorKind, IoError};
use crate::text;
use crate::text::{decode_lossy, lower_text, str_chars, string_from_chars, texts_equal};
use crate::wide;
use crate::wide::take_before_nul;
use crate::winpath;
use crate::winpath::{parent_of, path_eq};

pub mod nested;
pub mod session;
pub mod worker;

verus! {

pub type ShellMenuSessionId = u64;

pub type ShellMenuRequestId = u64;

pub type ShellMenuSubmenuToken = u64;

#[derive(Debug, PartialEq, Eq)]
pub struct ClassicMenuItem {
    pub command_id: Option<u32>,
    pub title: String,
    pub verb: Option<String>,
    pub enabled: bool,
    pub checked: bool,
    pub default: bool,
    pub kind: ClassicMenuItemKind,
}

#[derive(Debug, PartialEq, Eq)]
pub enum ClassicMenuItemKind {
    Command,
    Separator,
    Submenu { token: ShellMenuSubmenuToken, items: Vec<ClassicMenuItem> },
}

/// The item shows the same as the other, and so do the items below it.
pub open spec fn same_item(copy: ClassicMenuItem, item: ClassicMenuItem) -> bool
    decreases item,
{
    &&& copy.command_id == item.command_id
    &&& copy.title@ == item.title@
    &&& text_view(copy.verb) == text_view(item.verb)
    &&& copy.enabled == item.enabled
    &&& copy.checked == item.checked
    &&& copy.default == item.default
    &&& same_kind(copy.kind, item.kind)
}

pub open spec fn same_kind(copy: ClassicMenuItemKind, kind: ClassicMenuItemKind) -> bool
    decreases kind,
{
    match (copy, kind) {
        (ClassicMenuItemKind::Command, ClassicMenuItemKind::Command) => true,
        (ClassicMenuItemKind::Separator, ClassicMenuItemKind::Separator) => true,
        (
            ClassicMenuItemKind::Submenu { token: copied, items: copies },
            ClassicMenuItemKind::Submenu { token, items },
        ) => {
            &&& copied == token
            &&& copies@.len() == items@.len()
            &&& forall|i: int|
                0 <= i < items@.len() ==> same_item(#[trigger] copies@[i], items@[i])
        },
        _ => false,
    }
}

fn copy_kind(kind: &ClassicMenuItemKind) -> (copy: ClassicMenuItemKind)
    ensures
        same_kind(copy, *kind),
    decreases kind,
{
    match kind {
        ClassicMenuItemKind::Command => ClassicMenuItemKind::Command,
        ClassicMenuItemKind::Separator => ClassicMenuItemKind::Separator,
        ClassicMenuItemKind::Submenu { token, items } => {
            let mut copies: Vec<ClassicMenuItem> = Vec::new();
            let mut i: usize = 0;
            while i < items.len()
                invariant
                    *kind == (ClassicMenuItemKind::Submenu { token: *token, items: *items }),
                    i <= items@.len(),
                    copies@.len() == i,
                    forall|j: int| 0 <= j < i ==> same_item(#[trigger] copies@[j], items@[j]),
                decreases items@.len() - i,
            {
                proof {
                    assert(decreases_to!(*kind => kind->items));
                    assert(decreases_to!(kind->items => kind->items@[i as int]));
                }
                copies.push(copy_item(&items[i]));
                i += 1;
            }
            ClassicMenuItemKind::Submenu { token: *token, items: copies }
        },
    }
}

fn copy_item(item: &ClassicMenuItem) -> (copy: ClassicMenuItem)
    ensures
        same_item(copy, *item),
    decreases item,
{
    ClassicMenuItem {
        command_id: item.command_id,
        title: item.title.clone(),
        verb: item.verb.clone(),
        enabled: item.enabled,
        checked: item.checked,
        default: item.default,
        kind: copy_kind(&item.kind),
    }
}

impl Clone for ClassicMenuItemKind {
    fn clone(&self) -> (copy: Self)
        ensures
            same_kind(copy, *self),
    {
        copy_kind(self)
    }
}

impl Clone for ClassicMenuItem {
    fn clone(&self) -> (copy: Self)
        ensures
            same_item(copy, *self),
    {
        copy_item(self)
    }
}

#[derive(Debug, Clone, PartialEq, Eq)]
#[allow(inconsistent_fields)]
pub enum ClassicMenuInvocation {
    BuiltIn { verb: String },
    Shell { verb: Option<String> },
}

#[derive(Debug, Clone)]
pub enum ShellMenuLoadTarget {
    Paths(Vec<Vec<u16>>),
    Background(Vec<u16>),
}

// ---- what a menu can be opened for ----

/// A selection can be shown in one menu: all its paths lie in one folder.
pub open spec fn valid_selection(paths: Seq<Seq<u16>>) -> bool {
    &&& paths.len() > 0
    &&& winpath::path_parent(paths[0]) is Some
    &&& forall|i: int| 0 <= i < paths.len() ==> shares_parent(#[trigger] paths[i], paths[0])
}

/// The path is not empty and lies in the same folder as the other.
pub open spec fn shares_parent(path: Seq<u16>, first: Seq<u16>) -> bool {
    path.len() > 0 && match (winpath::path_parent(path), winpath::path_parent(first)) {
        (Some(a), Some(b)) => winpath::same_path(a, b),
        _ => false,
    }
}

pub fn validate_selection(paths: &[Vec<u16>]) -> (result: Result<(), IoError>)
    ensures
        result is Ok <==> valid_selection(winpath::path_views(paths@)),
        result matches Err(error) ==> errors::fails_with(
            error,
            ErrorKind::InvalidInput,
            if paths@.len() == 0 {
                "shell menu selection is empty"@
            } else {
                "classic menu selection must share one parent folder"@
            },
        ),
{
    let ghost views = winpath::path_views(paths@);
    let n: usize = paths.len();
    if n == 0 {
        return Err(IoError::new(ErrorKind::InvalidInput, "shell menu selection is empty"));
    }
    let parent = match parent_of(paths[0].as_slice()) {
        Some(parent) => parent,
        None => {
            assert(views[0] == paths@[0]@);
            return Err(
                IoError::new(
                    ErrorKind::InvalidInput,
                    "classic menu selection must share one parent folder",
                ),
            );
        },
    };
    let mut i: usize = 0;
    while i < n
        invariant
            n == paths@.len(),
            n > 0,
            i <= n,
            views == winpath::path_views(paths@),
            Some(parent@) == winpath::path_parent(views[0]),
            forall|j: int| 0 <= j < i ==> shares_parent(#[trigger] views[j], views[0]),
        decreases n - i,
    {
        let shared = match parent_of(paths[i].as_slice()) {
            Some(other) => path_eq(other.as_slice(), parent.as_slice()),
            None => false,
        };
        assert(views[i as int] == paths@[i as int]@);
        if paths[i].len() == 0 || !shared {
            assert(!shares_parent(views[i as int], views[0]));
            return Err(
                IoError::new(
                    ErrorKind::InvalidInput,
                    "classic menu selection must share one parent folder",
                ),
            );
        }
        i += 1;
    }
    Ok(())
}

pub fn validate_background(folder: &[u16]) -> (result: Result<(), IoError>)
    ensures
        result is Ok <==> folder@.len() > 0,
        result matches Err(error) ==> errors::fails_with(
            error,
            ErrorKind::InvalidInput,
            "classic background menu folder is empty"@,
        ),
{
    if folder.len() == 0 {
        Err(IoError::new(ErrorKind::InvalidInput, "classic background menu folder is empty"))
    } else {
        Ok(())
    }
}

/// The flags with which the Shell fills a menu.
pub fn query_flags(include_extended_verbs: bool) -> (flags: u32)
    ensures
        flags == if include_extended_verbs {
            0x100u32
        } else {
            0u32
        },
{
    if include_extended_verbs {
        0x100
    } else {
        0
    }
}

// ---- titles, verbs, messages ----

/// A title without the marks of its access key; a doubled mark stands for itself.
pub open spec fn cleaned(title: Seq<char>) -> Seq<char>
    decreases title.len(),
{
    if title.len() == 0 {
        Seq::empty()
    } else if title[0] != '&' {
        seq![title[0]] + cleaned(title.subrange(1, title.len() as int))
    } else if title.len() > 1 && title[1] == '&' {
        seq!['&'] + cleaned(title.subrange(2, title.len() as int))
    } else {
        cleaned(title.subrange(1, title.len() as int))
    }
}

fn clean_chars(chars: &[char]) -> (kept: String)
    ensures
        kept@ == cleaned(chars@),
{
    let n: usize = chars.len();
    let mut kept = String::new();
    let mut i: usize = 0;
    assert(chars@.subrange(0, n as int) =~= chars@);
    while i < n
        invariant
            n == chars@.len(),
            i <= n,
            kept@ + cleaned(chars@.subrange(i as int, n as int)) == cleaned(chars@),
        decreases n - i,
    {
        let ghost rest = chars@.subrange(i as int, n as int);
        let ghost before = kept@;
        if chars[i] == '&' {
            if i + 1 < n && chars[i + 1] == '&' {
                kept.push('&');
                assert(rest.subrange(2, rest.len() as int) =~= chars@.subrange(i + 2, n as int));
                assert(kept@ + cleaned(chars@.subrange(i + 2, n as int)) =~= before + cleaned(
                    rest,
                ));
                i += 2;
            } else {
                assert(rest.subrange(1, rest.len() as int) =~= chars@.subrange(i + 1, n as int));
                i += 1;
            }
        } else {
            kept.push(chars[i]);
            assert(rest.subrange(1, rest.len() as int) =~= chars@.subrange(i + 1, n as int));
            assert(kept@ + cleaned(chars@.subrange(i + 1, n as int)) =~= before + cleaned(rest));
            i += 1;
        }
    }
    assert(chars@.subrange(i as int, n as int).len() == 0);
    assert(kept@ + Seq::<char>::empty() =~= kept@);
    kept
}

pub fn clean_menu_title(title: &str) -> (kept: String)
    ensures
        kept@ == cleaned(title@),
{
    let chars = str_chars(title);
    clean_chars(chars.as_slice())
}

/// The verb that the Shell has written into a buffer, in lower case.
pub open spec fn verb_in(buffer: Seq<u16>) -> Option<Seq<char>> {
    let units = wide::before_nul(buffer);
    if units.len() == 0 {
        None
    } else {
        Some(text::ascii_lower_text(text::utf16_lossy(units)))
    }
}

pub open spec fn text_view(value: Option<String>) -> Option<Seq<char>> {
    match value {
        Some(text) => Some(text@),
        None => None,
    }
}

pub fn command_verb(buffer: &[u16]) -> (verb: Option<String>)
    ensures
        text_view(verb) == verb_in(buffer@),
{
    let units = take_before_nul(buffer);
    if units.len() == 0 {
        return None;
    }
    let chars = decode_lossy(units.as_slice());
    let text = string_from_chars(chars.as_slice());
    Some(lower_text(text.as_str()))
}

/// The commands that the file manager carries out itself.
pub open spec fn builtin_verb(verb: Seq<char>) -> bool {
    verb == "cut"@ || verb == "copy"@ || verb == "paste"@ || verb == "delete"@ || verb == "rename"@
}

pub fn is_builtin_verb(verb: &str) -> (builtin: bool)
    ensures
        builtin == builtin_verb(verb@),
{
    texts_equal(verb, "cut") || texts_equal(verb, "copy") || texts_equal(verb, "paste")
        || texts_equal(verb, "delete") || texts_equal(verb, "rename")
}

pub const WM_DRAWITEM: u32 = 0x2b;

pub const WM_MEASUREITEM: u32 = 0x2c;

pub const WM_INITMENU: u32 = 0x116;

pub const WM_INITMENUPOPUP: u32 = 0x117;

pub const WM_MENUCHAR: u32 = 0x120;

/// The messages with which an extension builds and draws its part of a menu.
pub fn is_dynamic_menu_message(message: u32) -> (forwarded: bool)
    ensures
        forwarded == (message == WM_INITMENU || message == WM_INITMENUPOPUP || message
            == WM_DRAWITEM || message == WM_MEASUREITEM || message == WM_MENUCHAR),
{
    message == WM_INITMENU || message == WM_INITMENUPOPUP || message == WM_DRAWITEM || message
        == WM_MEASUREITEM || message == WM_MENUCHAR
}

/// The interfaces to which a message is forwarded, in turn, until one of them takes it.
#[derive(Debug, Clone, Copy, PartialEq, Eq, Structural)]
pub enum MenuHandler {
    /// The second version of the interface.
    Second,
    /// The third version, which gives a result of its own.
    Third,
}

/// The second version comes first where a menu is initialized, and always last.
pub open spec fn handlers(message: u32) -> Seq<MenuHandler> {
    if message == WM_INITMENU || message == WM_INITMENUPOPUP {
        seq![MenuHandler::Second, MenuHandler::Third, MenuHandler::Second]
    } else if message == WM_DRAWITEM || message == WM_MEASUREITEM || message == WM_MENUCHAR {
        seq![MenuHandler::Third, MenuHandler::Second]
    } else {
        Seq::empty()
    }
}

pub fn forward_menu_message(message: u32) -> (turns: Vec<MenuHandler>)
    ensures
        turns@ == handlers(message),
{
    let mut turns: Vec<MenuHandler> = Vec::new();
    if is_dynamic_menu_message(message) {
        if message == WM_INITMENU || message == WM_INITMENUPOPUP {
            turns.push(MenuHandler::Second);
        }
        turns.push(MenuHandler::Third);
        turns.push(MenuHandler::Second);
    }
    assert(turns@ =~= handlers(message));
    turns
}

// ---- laws ----

/// A cleaned title is never longer, and one without marks is left as it is.
pub proof fn law_cleaning_keeps_plain_titles(title: Seq<char>)
    ensures
        cleaned(title).len() <= title.len(),
        !title.contains('&') ==> cleaned(title) == title,
    decreases title.len(),
{
    if title.len() > 0 {
        let rest = title.subrange(1, title.len() as int);
        law_cleaning_keeps_plain_titles(rest);
        if title[0] == '&' && title.len() > 1 && title[1] == '&' {
            law_cleaning_keeps_plain_titles(title.subrange(2, title.len() as int));
        }
        if !title.contains('&') {
            assert forall|i: int| 0 <= i < rest.len() implies rest[i] != '&' by {
                assert(title[i + 1] == rest[i]);
            }
            assert(title[0] != '&');
            assert(seq![title[0]] + rest =~= title);
        }
    }
}

/// Whether a selection can be shown does not depend on which of its paths comes first.
pub proof fn law_selection_is_symmetric(a: Seq<u16>, b: Seq<u16>)
    requires
        shares_parent(a, b),
        b.len() > 0,
    ensures
        shares_parent(b, a),
{
}

/// A title is shown without the mark of its access key, and a doubled mark as the character itself.
pub proof fn law_marks_are_taken_off(
    before: Seq<char>,
    rest: Seq<char>,
    marked: &str,
    doubled: &str,
    plain: String,
    single: String,
)
    requires
        !before.contains('&') && !rest.contains('&'),
        rest.len() > 0,
        marked@ == before.push('&') + rest,
        doubled@ == before.push('&').push('&') + rest,
        call_ensures(clean_menu_title, (marked,), plain),
        call_ensures(clean_menu_title, (doubled,), single),
    ensures
        plain@ == before + rest,
        single@ == before.push('&') + rest,
{
    let m = seq!['&'] + rest;
    let d = seq!['&', '&'] + rest;
    assert(marked@ =~= before + m);
    assert(doubled@ =~= before + d);
    lemma_cleaned_before(before, m);
    lemma_cleaned_before(before, d);
    law_cleaning_keeps_plain_titles(rest);
    assert(m.subrange(1, m.len() as int) =~= rest);
    assert(m[1] == rest[0]);
    assert(rest.contains(rest[0]));
    assert(d.subrange(2, d.len() as int) =~= rest);
    assert(single@ =~= before.push('&') + rest);
}

proof fn lemma_cleaned_before(before: Seq<char>, rest: Seq<char>)
    requires
        !before.contains('&'),
    ensures
        cleaned(before + rest) == before + cleaned(rest),
    decreases before.len(),
{
    let all = before + rest;
    if before.len() == 0 {
        assert(all =~= rest);
        assert(before + cleaned(rest) =~= cleaned(rest));
    } else {
        let tail = before.subrange(1, before.len() as int);
        assert forall|i: int| 0 <= i < tail.len() implies tail[i] != '&' by {
            assert(before[i + 1] == tail[i]);
        }
        assert(before[0] != '&');
        assert(all.subrange(1, all.len() as int) =~= tail + rest);
        lemma_cleaned_before(tail, rest);
        assert(seq![all[0]] + (tail + cleaned(rest)) =~= before + cleaned(rest));
    }
}

/// A selection is shown in one menu exactly where there is one and the parents of all its paths are one
/// folder; the background of a folder is shown where there is a folder.
pub proof fn law_a_selection_lies_in_one_folder(
    paths: &[Vec<u16>],
    result: Result<(), IoError>,
    folder: &[u16],
    background: Result<(), IoError>,
)
    requires
        call_ensures(validate_selection, (paths,), result),
        call_ensures(validate_background, (folder,), background),
    ensures
        result is Ok <==> paths@.len() > 0 && forall|i: int|
            0 <= i < paths@.len() ==> {
                &&& (#[trigger] paths@[i])@.len() > 0
                &&& winpath::path_parent(paths@[i]@) is Some
                &&& winpath::path_parent(paths@[0]@) is Some
                &&& winpath::components(winpath::path_parent(paths@[i]@)->0) == winpath::components(
                    winpath::path_parent(paths@[0]@)->0,
                )
            },
        background is Ok <==> folder@.len() > 0,
{
    let views = winpath::path_views(paths@);
    assert(views.len() == paths@.len());
    assert forall|i: int| 0 <= i < paths@.len() implies #[trigger] views[i] == paths@[i]@ by {}
    if result is Ok {
        assert forall|i: int| 0 <= i < paths@.len() implies {
            &&& (#[trigger] paths@[i])@.len() > 0
            &&& winpath::path_parent(paths@[i]@) is Some
            &&& winpath::path_parent(paths@[0]@) is Some
            &&& winpath::components(winpath::path_parent(paths@[i]@)->0) == winpath::components(
                winpath::path_parent(paths@[0]@)->0,
            )
        } by {
            assert(shares_parent(views[i], views[0]));
        }
    } else if paths@.len() > 0 {
        if winpath::path_parent(views[0]) is Some {
            let i = choose|i: int|
                0 <= i < views.len() && !shares_parent(#[trigger] views[i], views[0]);
            assert(paths@[i]@ == views[i]);
        } else {
            assert(paths@[0]@ == views[0]);
        }
    }
}

/// The verb of a command ends at its mark and is in lower case; one that is empty is none.
pub proof fn law_a_verb_is_read(
    name: Seq<u16>,
    junk: Seq<u16>,
    buffer: &[u16],
    verb: Option<String>,
)
    requires
        !name.contains(0),
        buffer@ == name.push(0) + junk,
        call_ensures(command_verb, (buffer,), verb),
    ensures
        verb is Some <==> name.len() > 0,
        verb matches Some(shown) ==> shown@.len() == text::utf16_lossy(name).len() && forall|i: int|
            0 <= i < shown@.len() ==> !('A' <= #[trigger] shown@[i] <= 'Z') && (shown@[i]
                == text::utf16_lossy(name)[i] || shown@[i] as int == text::utf16_lossy(
                name,
            )[i] as int + 0x20),
{
    wide::lemma_marked(name, junk);
}

/// The messages of a menu that draws itself are handed on, those that initialize a menu to the second
/// version of the interface first; no other message is.
pub proof fn law_menu_messages_are_handed_on(message: u32, forwarded: bool, turns: Vec<MenuHandler>)
    requires
        call_ensures(is_dynamic_menu_message, (message,), forwarded),
        call_ensures(forward_menu_message, (message,), turns),
    ensures
        forwarded <==> turns@.len() > 0,
        forwarded <==> message == 0x2b || message == 0x2c || message == 0x116 || message == 0x117
            || message == 0x120,
        forwarded ==> turns@.contains(MenuHandler::Third) && turns@.last() == MenuHandler::Second,
        message == 0x116 || message == 0x117 ==> turns@[0] == MenuHandler::Second,
        message == 0x2b || message == 0x2c || message == 0x120 ==> turns@[0] == MenuHandler::Third,
{
    if message == 0x116 || message == 0x117 {
        assert(turns@[1] == MenuHandler::Third);
    } else if forwarded {
        assert(turns@[0] == MenuHandler::Third);
    }
}

/// Extended verbs are asked for exactly where they are wanted.
pub proof fn law_extended_verbs_are_asked_for(include_extended_verbs: bool, flags: u32)
    requires
        call_ensures(query_flags, (include_extended_verbs,), flags),
    ensures
        flags == 0x100 <==> include_extended_verbs,
        flags == 0 <==> !include_extended_verbs,
{
}

} // verus!
