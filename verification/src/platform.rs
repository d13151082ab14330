//! Places that the sidebar knows, shortcuts, and calls of the Windows Shell.
use vstd::prelude::*;

use crate::errors;
use crate::errors::{ErrorKind, IoError};
use crate::text;
use crate::text::{
    decode_lossy, encode_text, push_signed_decimal, string_from_chars, text_of,
};
use crate::wide;
use crate::wide::{push_units, take_before_nul, units_eq_ignore_case, QUOTE};
use crate::windows::drag_drop::effects;
use crate::winpath;
use crate::winpath::{extension_of, file_name_of, units_copy_all};

verus! {

#[derive(Debug, Clone, Copy, PartialEq, Eq, Structural)]
pub enum KnownLocationKind {
    Home,
    Pinned,
    Drive,
}

#[derive(Debug, Clone)]
pub struct KnownLocation {
    pub kind: KnownLocationKind,
    pub label: String,
    pub path: Vec<u16>,
}

#[derive(Debug, Clone, PartialEq, Eq)]
pub struct ShortcutTarget {
    pub path: Vec<u16>,
    pub is_directory: Option<bool>,
}

/// Whether the system asks for dark colours, given the status and the value of its setting for
/// light ones.
pub fn system_uses_dark_theme(status: u32, light: u32) -> (dark: bool)
    ensures
        dark == (status == 0 && light == 0),
{
    status == 0 && light == 0
}

// ---- places ----

/// A place that Explorer lists, as far as it could be read.
#[derive(Debug)]
pub struct ListedPlace {
    pub pinned: bool,
    pub folder: bool,
    pub file_path: Option<Vec<u16>>,
    pub parsing_name: Option<Vec<u16>>,
    pub display_name: Option<Vec<u16>>,
}

/// The path of a listed place: its file path, else its parsing name.
pub open spec fn listed_path(place: ListedPlace) -> Option<Seq<u16>> {
    match (place.file_path, place.parsing_name) {
        (Some(path), _) => Some(path@),
        (None, Some(name)) => Some(name@),
        (None, None) => None,
    }
}

/// A listed place is shown when it is a pinned folder with a path.
pub open spec fn is_shown(place: ListedPlace) -> bool {
    place.pinned && place.folder && listed_path(place) is Some && listed_path(place)->0.len() > 0
}

/// The label of a listed place: its display name, else the last name of its path, else the path.
pub open spec fn listed_label(place: ListedPlace) -> Seq<char> {
    match place.display_name {
        Some(name) => text::utf16_lossy(name@),
        None => {
            let path = listed_path(place)->0;
            match winpath::path_name(path) {
                Some(name) => text::utf16_lossy(name),
                None => text::utf16_lossy(path),
            }
        },
    }
}

fn lossy_string(units: &[u16]) -> (shown: String)
    ensures
        shown@ == text::utf16_lossy(units@),
{
    let chars = decode_lossy(units);
    string_from_chars(chars.as_slice())
}

/// The sidebar's entry for a listed place.
pub fn pinned_location(place: ListedPlace) -> (location: Option<KnownLocation>)
    ensures
        location is Some <==> is_shown(place),
        location matches Some(location) ==> location.kind == KnownLocationKind::Pinned
            && location.path@ == listed_path(place)->0 && location.label@ == listed_label(place),
{
    if !place.pinned || !place.folder {
        return None;
    }
    let path = match place.file_path {
        Some(path) => path,
        None => match place.parsing_name {
            Some(name) => name,
            None => {
                return None;
            },
        },
    };
    if path.len() == 0 {
        return None;
    }
    let label = match &place.display_name {
        Some(name) => lossy_string(name.as_slice()),
        None => match file_name_of(path.as_slice()) {
            Some(name) => lossy_string(name.as_slice()),
            None => lossy_string(path.as_slice()),
        },
    };
    Some(KnownLocation { kind: KnownLocationKind::Pinned, label, path })
}

/// The entries for the listed places that are shown, in their order.
pub open spec fn shown_places(places: Seq<ListedPlace>) -> Seq<ListedPlace> {
    places.filter(|place: ListedPlace| is_shown(place))
}

pub open spec fn is_entry_for(location: KnownLocation, place: ListedPlace) -> bool {
    location.kind == KnownLocationKind::Pinned && location.path@ == listed_path(place)->0
        && location.label@ == listed_label(place)
}

pub fn explorer_pinned_locations(places: Vec<ListedPlace>) -> (locations: Vec<KnownLocation>)
    ensures
        locations@.len() == shown_places(places@).len(),
        forall|i: int|
            0 <= i < locations@.len() ==> is_entry_for(
                #[trigger] locations@[i],
                shown_places(places@)[i],
            ),
{
    let mut left = places;
    let mut locations: Vec<KnownLocation> = Vec::new();
    let ghost all = places@;
    let ghost mut done: int = 0;
    assert(shown_places(all.subrange(0, 0)) =~= Seq::<ListedPlace>::empty()) by {
        reveal(Seq::filter);
    }
    assert(left@ =~= all.subrange(0, all.len() as int));
    while left.len() > 0
        invariant
            0 <= done <= all.len(),
            left@ == all.subrange(done, all.len() as int),
            locations@.len() == shown_places(all.subrange(0, done)).len(),
            forall|i: int|
                0 <= i < locations@.len() ==> is_entry_for(
                    #[trigger] locations@[i],
                    shown_places(all.subrange(0, done))[i],
                ),
        decreases left@.len(),
    {
        proof {
            reveal(Seq::filter);
            let next = all.subrange(0, done + 1);
            assert(next.drop_last() =~= all.subrange(0, done));
            assert(next.last() == left@[0]);
        }
        let place = left.remove(0);
        proof {
            assert(left@ =~= all.subrange(done + 1, all.len() as int));
            done = done + 1;
        }
        match pinned_location(place) {
            Some(location) => {
                locations.push(location);
            },
            None => {},
        }
    }
    assert(all.subrange(0, done) =~= all);
    locations
}

/// A drive letter by its number.
pub open spec fn drive_letter(index: int) -> char {
    (0x41 + index) as char
}

/// The label of a drive: its letter, behind the name of its volume where it has one.
pub open spec fn drive_label(index: int, volume: Seq<char>) -> Seq<char> {
    if volume.len() == 0 {
        seq![drive_letter(index), ':']
    } else {
        volume + seq![' ', '(', drive_letter(index), ':', ')']
    }
}

pub open spec fn drive_root(index: int) -> Seq<u16> {
    seq![(0x41 + index) as u16, 0x3au16, 0x5cu16]
}

pub open spec fn has_drive(mask: u32, index: u32) -> bool {
    mask & (1u32 << index) != 0
}

/// The numbers of the drives in a mask, rising.
pub open spec fn drives_in(mask: u32, n: int) -> Seq<u32>
    decreases n,
{
    if n <= 0 {
        Seq::empty()
    } else if has_drive(mask, (n - 1) as u32) {
        drives_in(mask, n - 1).push((n - 1) as u32)
    } else {
        drives_in(mask, n - 1)
    }
}

/// The numbers of the drives that the system reports, among the letters A to Z.
pub fn drive_indices(mask: u32) -> (indices: Vec<u32>)
    ensures
        indices@ == drives_in(mask, 26),
{
    let mut indices: Vec<u32> = Vec::new();
    let mut index: u32 = 0;
    while index < 26
        invariant
            index <= 26,
            indices@ == drives_in(mask, index as int),
        decreases 26 - index,
    {
        if mask & (1u32 << index) != 0 {
            indices.push(index);
        }
        index += 1;
    }
    indices
}

pub fn drive_root_path(index: u32) -> (root: Vec<u16>)
    requires
        index < 26,
    ensures
        root@ == drive_root(index as int),
{
    let mut root: Vec<u16> = Vec::new();
    root.push(0x41 + index as u16);
    root.push(0x3a);
    root.push(0x5c);
    assert(root@ =~= drive_root(index as int));
    root
}

/// The text of a volume name that the system has written into a buffer.
pub fn volume_label(buffer: &[u16]) -> (label: String)
    ensures
        label@ == text::utf16_lossy(wide::before_nul(buffer@)),
{
    let kept = take_before_nul(buffer);
    lossy_string(kept.as_slice())
}

/// The sidebar's entry for a drive; a mapped drive leads to its network path where that is known.
pub fn drive_location(index: u32, volume: &str, network_path: Option<Vec<u16>>) -> (location:
    KnownLocation)
    requires
        index < 26,
    ensures
        location.kind == KnownLocationKind::Drive,
        location.label@ == drive_label(index as int, volume@),
        location.path@ == match network_path {
            Some(path) => path@,
            None => drive_root(index as int),
        },
{
    let letter: char = (0x41 + index as u8) as char;
    let mut label = text_of(volume);
    if volume.is_empty() {
        label.push(letter);
        label.push(':');
    } else {
        label.push(' ');
        label.push('(');
        label.push(letter);
        label.push(':');
        label.push(')');
    }
    assert(label@ =~= drive_label(index as int, volume@));
    let path = match network_path {
        Some(path) => path,
        None => drive_root_path(index),
    };
    KnownLocation { kind: KnownLocationKind::Drive, label, path }
}

/// All entries of the sidebar: home, what is pinned, the drives.
pub fn known_locations(
    home: Option<Vec<u16>>,
    pinned: Vec<KnownLocation>,
    drives: Vec<KnownLocation>,
) -> (locations: Vec<KnownLocation>)
    ensures
        match home {
            Some(path) => {
                &&& locations@.len() == 1 + pinned@.len() + drives@.len()
                &&& locations@[0].kind == KnownLocationKind::Home
                &&& locations@[0].label@ == "主页"@
                &&& locations@[0].path == path
                &&& locations@.subrange(1, locations@.len() as int) == pinned@ + drives@
            },
            None => locations@ == pinned@ + drives@,
        },
{
    let mut locations: Vec<KnownLocation> = Vec::new();
    match home {
        Some(path) => {
            locations.push(
                KnownLocation { kind: KnownLocationKind::Home, label: text_of("主页"), path },
            );
        },
        None => {},
    }
    let ghost first = locations@;
    let mut pinned = pinned;
    let mut drives = drives;
    let ghost rest = pinned@ + drives@;
    locations.append(&mut pinned);
    locations.append(&mut drives);
    proof {
        assert(locations@ =~= first + rest);
        if home is Some {
            assert(locations@.subrange(1, locations@.len() as int) =~= rest);
        } else {
            assert(locations@ =~= rest);
        }
    }
    locations
}

// ---- shortcuts ----

pub const FILE_ATTRIBUTE_DIRECTORY: u32 = 0x10;

/// A shortcut is known by its extension, in either case.
pub open spec fn is_shortcut_path(path: Seq<u16>) -> bool {
    winpath::path_extension(path) matches Some(extension) && wide::ascii_lower(extension)
        == seq![0x6cu16, 0x6e, 0x6b]
}

pub fn is_shortcut(path: &[u16]) -> (shortcut: bool)
    ensures
        shortcut == is_shortcut_path(path@),
{
    let mut lnk: Vec<u16> = Vec::new();
    lnk.push(0x6c);
    lnk.push(0x6e);
    lnk.push(0x6b);
    proof {
        assert(lnk@ =~= seq![0x6cu16, 0x6e, 0x6b]);
        assert(wide::ascii_lower(lnk@) =~= lnk@);
    }
    match extension_of(path) {
        Some(extension) => units_eq_ignore_case(extension.as_slice(), lnk.as_slice()),
        None => false,
    }
}

/// What a shortcut holds: the buffer with its target, the attributes of the target now if it can be
/// read, and those that the shortcut has recorded.
#[derive(Debug)]
pub struct LinkData {
    pub target: Vec<u16>,
    pub live_attributes: Option<u32>,
    pub recorded_attributes: u32,
}

/// Whether the target is a directory, as far as that is known.
pub open spec fn link_is_directory(link: LinkData) -> Option<bool> {
    match link.live_attributes {
        Some(attributes) => Some(effects::has_bits(attributes, FILE_ATTRIBUTE_DIRECTORY)),
        None => if link.recorded_attributes == 0 {
            None
        } else {
            Some(effects::has_bits(link.recorded_attributes, FILE_ATTRIBUTE_DIRECTORY))
        },
    }
}

/// The target of a shortcut, given what it holds; nothing for another file or an empty target.
pub fn resolve_shortcut_target(path: &[u16], link: &LinkData) -> (target: Option<ShortcutTarget>)
    ensures
        ({
            let found = wide::before_nul(link.target@);
            &&& target is Some <==> is_shortcut_path(path@) && found.len() > 0
            &&& target matches Some(target) ==> target.path@ == found && target.is_directory
                == link_is_directory(*link)
        }),
{
    if !is_shortcut(path) {
        return None;
    }
    let found = take_before_nul(link.target.as_slice());
    if found.len() == 0 {
        return None;
    }
    let is_directory = match link.live_attributes {
        Some(attributes) => Some(attributes & FILE_ATTRIBUTE_DIRECTORY != 0),
        None => if link.recorded_attributes == 0 {
            None
        } else {
            Some(link.recorded_attributes & FILE_ATTRIBUTE_DIRECTORY != 0)
        },
    };
    Some(ShortcutTarget { path: found, is_directory })
}

// ---- the Shell ----

/// What the Shell is asked to open, and with which arguments.
#[derive(Debug, Clone, PartialEq, Eq)]
pub struct ShellLaunch {
    pub target: Vec<u16>,
    pub arguments: Option<Vec<u16>>,
}

pub fn open_path(path: &[u16]) -> (launch: ShellLaunch)
    ensures
        launch.target@ == path@,
        launch.arguments is None,
{
    ShellLaunch { target: units_copy_all(path), arguments: None }
}

pub fn open_url(url: &str) -> (launch: ShellLaunch)
    ensures
        launch.target@ == text::utf16_encoded(url@),
        launch.arguments is None,
{
    ShellLaunch { target: encode_text(url), arguments: None }
}

/// The launch of the system's list of stored credentials.
pub fn open_windows_credentials() -> (launch: ShellLaunch)
    ensures
        launch.target@ == text::utf16_encoded("control.exe"@),
        launch.arguments matches Some(arguments) && arguments@ == text::utf16_encoded(
            "/name Microsoft.CredentialManager"@,
        ),
{
    ShellLaunch {
        target: encode_text("control.exe"),
        arguments: Some(encode_text("/name Microsoft.CredentialManager")),
    }
}

/// The launch that asks Explorer for a folder: its path stands between quotes.
pub fn request_folder_access(path: &[u16]) -> (launch: ShellLaunch)
    ensures
        launch.target@ == text::utf16_encoded("explorer.exe"@),
        launch.arguments matches Some(arguments) && arguments@ == seq![QUOTE] + path@ + seq![QUOTE],
{
    let mut argument: Vec<u16> = Vec::new();
    argument.push(QUOTE);
    push_units(&mut argument, path);
    argument.push(QUOTE);
    assert(argument@ =~= seq![QUOTE] + path@ + seq![QUOTE]);
    ShellLaunch { target: encode_text("explorer.exe"), arguments: Some(argument) }
}

/// The texts of a launch as the system takes them, each with a zero at its end.
#[derive(Debug, Clone, PartialEq, Eq)]
pub struct ShellExecuteCall {
    pub operation: Vec<u16>,
    pub target: Vec<u16>,
    pub arguments: Option<Vec<u16>>,
}

pub fn shell_execute(launch: &ShellLaunch) -> (call: ShellExecuteCall)
    ensures
        call.operation@ == text::utf16_encoded("open"@).push(0),
        call.target@ == launch.target@.push(0),
        match (call.arguments, launch.arguments) {
            (Some(passed), Some(given)) => passed@ == given@.push(0),
            (None, None) => true,
            _ => false,
        },
{
    let mut operation = encode_text("open");
    operation.push(0);
    let mut target = units_copy_all(launch.target.as_slice());
    target.push(0);
    let arguments = match &launch.arguments {
        Some(given) => {
            let mut passed = units_copy_all(given.as_slice());
            passed.push(0);
            Some(passed)
        },
        None => None,
    };
    ShellExecuteCall { operation, target, arguments }
}

/// What the Shell's answer to a launch means: numbers up to 32 are errors.
pub fn shell_execute_result(code: i64) -> (result: Result<(), IoError>)
    ensures
        result is Ok <==> code > 32,
        result matches Err(error) ==> errors::fails_with(
            error,
            ErrorKind::Other,
            "ShellExecuteW failed with code "@ + text::signed_decimal(code as int),
        ),
{
    if code <= 32 {
        let mut message = text_of("ShellExecuteW failed with code ");
        push_signed_decimal(&mut message, code);
        Err(IoError { kind: ErrorKind::Other, code: None, message })
    } else {
        Ok(())
    }
}

// ---- laws ----

/// A listed place is shown where it is a pinned folder with a path, at that path, under the name
/// that Explorer shows for it.
pub proof fn law_pinned_folders_are_shown(place: ListedPlace, location: Option<KnownLocation>)
    requires
        call_ensures(pinned_location, (place,), location),
    ensures
        location is Some <==> place.pinned && place.folder && match (
            place.file_path,
            place.parsing_name,
        ) {
            (Some(path), _) => path@.len() > 0,
            (None, Some(name)) => name@.len() > 0,
            (None, None) => false,
        },
        location matches Some(shown) ==> {
            &&& shown.kind == KnownLocationKind::Pinned
            &&& place.file_path matches Some(path) ==> shown.path@ == path@
            &&& place.file_path is None ==> shown.path@ == place.parsing_name->0@
            &&& place.display_name matches Some(name) ==> shown.label@ == text::utf16_lossy(name@)
        },
{
}

/// One more listed place adds one entry behind the others where it is shown, and nothing otherwise.
pub proof fn law_each_pinned_folder_has_an_entry(
    places: Vec<ListedPlace>,
    place: ListedPlace,
    more: Vec<ListedPlace>,
    before: Vec<KnownLocation>,
    after: Vec<KnownLocation>,
    location: Option<KnownLocation>,
)
    requires
        more@ == places@.push(place),
        call_ensures(explorer_pinned_locations, (places,), before),
        call_ensures(explorer_pinned_locations, (more,), after),
        call_ensures(pinned_location, (place,), location),
    ensures
        forall|i: int|
            0 <= i < before@.len() ==> (#[trigger] after@[i]).path@ == before@[i].path@
                && after@[i].label@ == before@[i].label@ && after@[i].kind == before@[i].kind,
        after@.len() == before@.len() + if location is Some {
            1int
        } else {
            0int
        },
        location matches Some(shown) ==> after@.last().path@ == shown.path@ && after@.last().label@
            == shown.label@ && after@.last().kind == shown.kind,
{
    reveal(Seq::filter);
    assert(more@.drop_last() =~= places@);
    let a = shown_places(places@);
    let b = shown_places(more@);
    assert(b == if is_shown(place) {
        a.push(place)
    } else {
        a
    });
    assert forall|i: int| 0 <= i < before@.len() implies (#[trigger] after@[i]).path@
        == before@[i].path@ && after@[i].label@ == before@[i].label@ && after@[i].kind
        == before@[i].kind by {
        assert(is_entry_for(before@[i], a[i]));
        assert(is_entry_for(after@[i], b[i]));
        assert(a[i] == b[i]);
    }
    if is_shown(place) {
        assert(is_entry_for(after@[a.len() as int], b[a.len() as int]));
    }
}

proof fn lemma_drives(mask: u32, n: int)
    requires
        0 <= n <= 26,
    ensures
        forall|i: int|
            0 <= i < drives_in(mask, n).len() ==> #[trigger] drives_in(mask, n)[i] < n && has_drive(
                mask,
                drives_in(mask, n)[i],
            ),
        forall|d: u32| d < n && #[trigger] has_drive(mask, d) ==> drives_in(mask, n).contains(d),
        forall|i: int, j: int|
            0 <= i < j < drives_in(mask, n).len() ==> #[trigger] drives_in(mask, n)[i]
                < #[trigger] drives_in(mask, n)[j],
    decreases n,
{
    if n > 0 {
        lemma_drives(mask, n - 1);
        let before = drives_in(mask, n - 1);
        let all = drives_in(mask, n);
        assert forall|d: u32| d < n && #[trigger] has_drive(mask, d) implies all.contains(d) by {
            if d < n - 1 {
                let k = choose|k: int| 0 <= k < before.len() && before[k] == d;
                assert(all[k] == d);
            } else {
                assert(all[before.len() as int] == d);
            }
        }
    }
}

/// The drives that are shown are those whose bit is set, each once and in the order of their
/// letters.
pub proof fn law_every_drive_is_shown_once(mask: u32, indices: Vec<u32>)
    requires
        call_ensures(drive_indices, (mask,), indices),
    ensures
        forall|d: u32|
            d < 26 ==> (mask & (1u32 << d) != 0 <==> #[trigger] indices@.contains(d)),
        forall|i: int, j: int|
            0 <= i < j < indices@.len() ==> #[trigger] indices@[i] < #[trigger] indices@[j],
        forall|i: int| 0 <= i < indices@.len() ==> #[trigger] indices@[i] < 26,
{
    lemma_drives(mask, 26);
    assert forall|d: u32| d < 26 implies (mask & (1u32 << d) != 0
        <==> #[trigger] indices@.contains(d)) by {
        if indices@.contains(d) {
            let k = choose|k: int| 0 <= k < indices@.len() && indices@[k] == d;
            assert(has_drive(mask, indices@[k]));
        }
        if mask & (1u32 << d) != 0 {
            assert(has_drive(mask, d));
        }
    }
}

/// A drive is shown by its letter, behind the name of its volume where that has one, and leads to
/// its root or to the share that it stands for.
pub proof fn law_a_drive_leads_to_its_root(
    index: u32,
    volume: &str,
    network_path: Option<Vec<u16>>,
    location: KnownLocation,
    root: Vec<u16>,
)
    requires
        index < 26,
        call_ensures(drive_location, (index, volume, network_path), location),
        call_ensures(drive_root_path, (index,), root),
    ensures
        location.kind == KnownLocationKind::Drive,
        root@ == seq![(0x41 + index) as u16, 0x3au16, 0x5cu16],
        match network_path {
            Some(path) => location.path@ == path@,
            None => location.path@ == root@,
        },
        volume@.len() == 0 ==> location.label@.len() == 2 && location.label@[0] as int == 0x41
            + index && location.label@[1] == ':',
        volume@.len() > 0 ==> volume@.is_prefix_of(location.label@) && location.label@.len()
            == volume@.len() + 5 && location.label@[volume@.len() as int + 2] as int == 0x41 + index,
{
    if volume@.len() > 0 {
        assert(location.label@.subrange(0, volume@.len() as int) =~= volume@);
    }
}

/// A shortcut leads to the target that it holds; that this is a folder is told by the target itself
/// where it can be read, and else by what the shortcut has recorded.
pub proof fn law_shortcuts_lead_to_their_targets(
    path: &[u16],
    link: LinkData,
    text: Seq<u16>,
    junk: Seq<u16>,
    shortcut: bool,
    target: Option<ShortcutTarget>,
)
    requires
        !text.contains(0),
        text.len() > 0,
        link.target@ == text.push(0) + junk,
        call_ensures(is_shortcut, (path,), shortcut),
        call_ensures(resolve_shortcut_target, (path, &link), target),
    ensures
        target is Some <==> shortcut,
        target matches Some(found) ==> {
            &&& found.path@ == text
            &&& link.live_attributes matches Some(attributes) ==> found.is_directory == Some(
                attributes & 0x10 != 0,
            )
            &&& link.live_attributes is None && link.recorded_attributes != 0
                ==> found.is_directory == Some(link.recorded_attributes & 0x10 != 0)
            &&& link.live_attributes is None && link.recorded_attributes == 0
                ==> found.is_directory is None
        },
{
    wide::lemma_marked(text, junk);
}

/// The places of the navigation pane are the home folder, the pinned folders and the drives, in
/// this order and none left out.
pub proof fn law_the_pane_holds_every_place(
    home: Option<Vec<u16>>,
    pinned: Vec<KnownLocation>,
    drives: Vec<KnownLocation>,
    locations: Vec<KnownLocation>,
)
    requires
        call_ensures(known_locations, (home, pinned, drives), locations),
    ensures
        ({
            let first = if home is Some {
                1int
            } else {
                0int
            };
            &&& locations@.len() == first + pinned@.len() + drives@.len()
            &&& home matches Some(path) ==> locations@[0].path@ == path@ && locations@[0].kind
                == KnownLocationKind::Home
            &&& forall|i: int|
                0 <= i < pinned@.len() ==> #[trigger] locations@[first + i] == pinned@[i]
            &&& forall|i: int|
                0 <= i < drives@.len() ==> #[trigger] locations@[first + pinned@.len() + i]
                    == drives@[i]
        }),
{
    if home is Some {
        let rest = locations@.subrange(1, locations@.len() as int);
        assert forall|i: int| 0 <= i < pinned@.len() implies #[trigger] locations@[1 + i]
            == pinned@[i] by {
            assert(rest[i] == pinned@[i]);
        }
        assert forall|i: int| 0 <= i < drives@.len() implies #[trigger] locations@[1 + pinned@.len()
            + i] == drives@[i] by {
            assert(rest[pinned@.len() + i] == drives@[i]);
        }
    }
}

/// The Shell is told to open the path that was asked for, with nothing added, and its answer says
/// whether it did.
pub proof fn law_the_shell_opens_what_was_asked(
    path: &[u16],
    opened: ShellLaunch,
    call: ShellExecuteCall,
    code: i64,
    result: Result<(), IoError>,
)
    requires
        call_ensures(open_path, (path,), opened),
        call_ensures(shell_execute, (&opened,), call),
        call_ensures(shell_execute_result, (code,), result),
    ensures
        call.target@ == path@.push(0),
        call.arguments is None,
        result is Ok <==> code > 32,
{
}

} // verus!
