//! The places on the network that the shell shows.
use vstd::prelude::*;

use crate::network;
use crate::network::{is_unc_path, unc_host_units};
use crate::text;
use crate::text::{
    decode_lossy, encode_text, lower_chars, push_text, str_chars, string_from_chars, text_of,
    texts_equal,
};
use crate::wide;
use crate::wide::units_eq_ignore_case;
use crate::windows::network::codec;
use crate::windows::network::helper;
use crate::windows::network::results;
use crate::windows::network::process;
use crate::windows::network::{NetworkDevice, NetworkLocation, NetworkRootItem};
use crate::winpath;
use crate::winpath::{extension_of, file_stem_of, join, units_copy_all};

verus! {

// ---- items of the shell ----

/// What the shell says of an item.
#[derive(Debug, Clone, PartialEq, Eq)]
pub struct ShellItemInfo {
    pub label: Option<String>,
    pub parsing_path: Option<Vec<u16>>,
    pub file_system_path: Option<Vec<u16>>,
}

pub struct InfoData {
    pub label: Option<Seq<char>>,
    pub parsing_path: Option<Seq<u16>>,
    pub file_system_path: Option<Seq<u16>>,
}

impl ShellItemInfo {
    pub open spec fn data(self) -> InfoData {
        InfoData {
            label: helper::string_view(self.label),
            parsing_path: codec::units_view(self.parsing_path),
            file_system_path: codec::units_view(self.file_system_path),
        }
    }
}

pub open spec fn info_data(items: Seq<ShellItemInfo>) -> Seq<InfoData> {
    Seq::new(items.len(), |i: int| items[i].data())
}

/// A name that the shell gives, where it gives one that is not empty.
pub open spec fn shown_name(value: Option<Seq<u16>>) -> Option<Seq<char>> {
    match value {
        Some(units) => if units.len() > 0 {
            Some(text::utf16_lossy(units))
        } else {
            None
        },
        None => None,
    }
}

pub fn display_name(value: Option<&[u16]>) -> (name: Option<String>)
    ensures
        helper::string_view(name) == shown_name(codec::slice_view(value)),
{
    match value {
        Some(units) => if units.len() > 0 {
            let chars = decode_lossy(units);
            Some(string_from_chars(&chars))
        } else {
            None
        },
        None => None,
    }
}

fn display_path(value: Option<&[u16]>) -> (path: Option<Vec<u16>>)
    ensures
        codec::units_view(path) == helper::encoded(shown_name(codec::slice_view(value))),
{
    match display_name(value) {
        Some(name) => Some(encode_text(&name)),
        None => None,
    }
}

/// The item whose names are these.
pub fn shell_item_info(
    label: Option<&[u16]>,
    parsing: Option<&[u16]>,
    file_system: Option<&[u16]>,
) -> (item: ShellItemInfo)
    ensures
        item.data() == (InfoData {
            label: shown_name(codec::slice_view(label)),
            parsing_path: helper::encoded(shown_name(codec::slice_view(parsing))),
            file_system_path: helper::encoded(shown_name(codec::slice_view(file_system))),
        }),
{
    ShellItemInfo {
        label: display_name(label),
        parsing_path: display_path(parsing),
        file_system_path: display_path(file_system),
    }
}

/// Where the item is: in the file system, or else in the shell.
pub open spec fn place_of(item: InfoData) -> Option<Seq<u16>> {
    match item.file_system_path {
        Some(path) => Some(path),
        None => item.parsing_path,
    }
}

pub fn item_place(item: &ShellItemInfo) -> (place: Option<Vec<u16>>)
    ensures
        codec::units_view(place) == place_of(item.data()),
{
    match &item.file_system_path {
        Some(path) => Some(units_copy_all(path)),
        None => match &item.parsing_path {
            Some(path) => Some(units_copy_all(path)),
            None => None,
        },
    }
}

fn copy_path(path: &Option<Vec<u16>>) -> (copy: Option<Vec<u16>>)
    ensures
        codec::units_view(copy) == codec::units_view(*path),
{
    match path {
        Some(path) => Some(units_copy_all(path)),
        None => None,
    }
}

pub open spec fn label_or(label: Option<Seq<char>>, path: Seq<u16>) -> Seq<char> {
    match label {
        Some(label) => label,
        None => text::utf16_lossy(path),
    }
}

fn item_label(label: &Option<String>, path: &[u16]) -> (shown: String)
    ensures
        shown@ == label_or(helper::string_view(*label), path@),
{
    match label {
        Some(label) => text_of(label),
        None => {
            let chars = decode_lossy(path);
            string_from_chars(&chars)
        },
    }
}

// ---- imported locations ----

/// The link that says where an imported location leads: the location, or a file in it.
pub open spec fn link_of(place: Seq<u16>) -> Seq<u16> {
    match winpath::path_extension(place) {
        Some(extension) if wide::ascii_lower(extension) == wide::ascii_lower(
            text::utf16_encoded("lnk"@),
        ) => place,
        _ => winpath::joined(place, text::utf16_encoded("target.lnk"@)),
    }
}

pub fn target_link(place: &[u16]) -> (link: Vec<u16>)
    ensures
        link@ == link_of(place@),
{
    let lnk = encode_text("lnk");
    if let Some(extension) = extension_of(place) {
        if units_eq_ignore_case(&extension, &lnk) {
            return units_copy_all(place);
        }
    }
    let name = encode_text("target.lnk");
    join(place, &name)
}

/// An item of the folder of imported locations, and where its link leads.
#[derive(Debug, Clone, PartialEq, Eq)]
pub struct ImportedItem {
    pub item: ShellItemInfo,
    pub resolved: Option<Vec<u16>>,
}

pub struct LocationData {
    pub label: Seq<char>,
    pub target: Option<Seq<u16>>,
    pub shell_path: Seq<u16>,
    pub shell_identity: Option<Seq<u16>>,
}

impl NetworkLocation {
    pub open spec fn data(self) -> LocationData {
        LocationData {
            label: self.label@,
            target: codec::units_view(self.target),
            shell_path: self.shell_path@,
            shell_identity: codec::units_view(self.shell_identity),
        }
    }
}

pub open spec fn location_data(locations: Seq<NetworkLocation>) -> Seq<LocationData> {
    Seq::new(locations.len(), |i: int| locations[i].data())
}

/// The location that an item stands for: it leads where its link leads, or, where it has none, to
/// its own place if that is on the network.
pub open spec fn location_of(item: ImportedItem) -> Option<LocationData> {
    let info = item.item.data();
    match place_of(info) {
        None => None,
        Some(place) => Some(
            LocationData {
                label: match info.label {
                    Some(label) => label,
                    None => text::utf16_lossy(
                        match winpath::path_stem(place) {
                            Some(stem) => stem,
                            None => place,
                        },
                    ),
                },
                target: match item.resolved {
                    Some(path) => Some(path@),
                    None => if network::is_unc(place) {
                        Some(place)
                    } else {
                        None
                    },
                },
                shell_path: place,
                shell_identity: info.parsing_path,
            },
        ),
    }
}

pub open spec fn locations_of(items: Seq<ImportedItem>) -> Seq<LocationData>
    decreases items.len(),
{
    if items.len() == 0 {
        Seq::empty()
    } else {
        let before = locations_of(items.drop_last());
        match location_of(items.last()) {
            Some(location) => before.push(location),
            None => before,
        }
    }
}

fn network_location(imported: &ImportedItem) -> (location: Option<NetworkLocation>)
    ensures
        match location {
            Some(location) => location_of(*imported) == Some(location.data()),
            None => location_of(*imported) is None,
        },
{
    let shell_path = match item_place(&imported.item) {
        Some(place) => place,
        None => {
            return None;
        },
    };
    let target = match &imported.resolved {
        Some(path) => Some(units_copy_all(path)),
        None => if is_unc_path(&shell_path) {
            Some(units_copy_all(&shell_path))
        } else {
            None
        },
    };
    let label = match &imported.item.label {
        Some(label) => text_of(label),
        None => {
            let chars = match file_stem_of(&shell_path) {
                Some(stem) => decode_lossy(&stem),
                None => decode_lossy(&shell_path),
            };
            string_from_chars(&chars)
        },
    };
    let shell_identity = copy_path(&imported.item.parsing_path);
    Some(NetworkLocation { label, target, shell_path, shell_identity })
}

/// The locations that the shell has imported.
pub fn enumerate_network_locations(items: &[ImportedItem]) -> (locations: Vec<NetworkLocation>)
    ensures
        location_data(locations@) == locations_of(items@),
{
    let mut locations: Vec<NetworkLocation> = Vec::new();
    let n: usize = items.len();
    let mut i: usize = 0;
    assert(items@.take(0) =~= Seq::empty());
    assert(location_data(locations@) =~= Seq::empty());
    while i < n
        invariant
            i <= n,
            n == items@.len(),
            location_data(locations@) == locations_of(items@.take(i as int)),
        decreases n - i,
    {
        let ghost before = location_data(locations@);
        proof {
            assert(items@.take(i + 1).drop_last() =~= items@.take(i as int));
            assert(items@.take(i + 1).last() == items@[i as int]);
        }
        match network_location(&items[i]) {
            Some(location) => {
                let ghost data = location.data();
                locations.push(location);
                assert(location_data(locations@) =~= before.push(data));
            },
            None => {},
        }
        i += 1;
    }
    assert(items@.take(n as int) =~= items@);
    locations
}

// ---- the order of labels ----

/// The order of texts, character by character.
pub open spec fn text_le(a: Seq<char>, b: Seq<char>) -> bool
    decreases a.len(),
{
    if a.len() == 0 {
        true
    } else if b.len() == 0 {
        false
    } else if a[0] == b[0] {
        text_le(a.drop_first(), b.drop_first())
    } else {
        (a[0] as int) < (b[0] as int)
    }
}

fn char_below(a: char, b: char) -> (below: bool)
    ensures
        below == ((a as int) < (b as int)),
{
    (a as u32) < (b as u32)
}

fn chars_le(a: &[char], b: &[char]) -> (le: bool)
    ensures
        le == text_le(a@, b@),
{
    let n: usize = a.len();
    let m: usize = b.len();
    let mut i: usize = 0;
    assert(a@.skip(0) =~= a@);
    assert(b@.skip(0) =~= b@);
    while i < n && i < m && a[i] == b[i]
        invariant
            i <= n,
            i <= m,
            n == a@.len(),
            m == b@.len(),
            text_le(a@, b@) == text_le(a@.skip(i as int), b@.skip(i as int)),
        decreases n - i,
    {
        proof {
            assert(a@.skip(i as int).drop_first() =~= a@.skip(i + 1));
            assert(b@.skip(i as int).drop_first() =~= b@.skip(i + 1));
        }
        i += 1;
    }
    if i >= n {
        true
    } else if i >= m {
        false
    } else {
        char_below(a[i], b[i])
    }
}

pub proof fn lemma_text_le_total(a: Seq<char>, b: Seq<char>)
    ensures
        text_le(a, b) || text_le(b, a),
    decreases a.len(),
{
    if a.len() > 0 && b.len() > 0 {
        if a[0] == b[0] {
            lemma_text_le_total(a.drop_first(), b.drop_first());
        }
    }
}

pub proof fn lemma_text_le_transitive(a: Seq<char>, b: Seq<char>, c: Seq<char>)
    requires
        text_le(a, b),
        text_le(b, c),
    ensures
        text_le(a, c),
    decreases a.len(),
{
    if a.len() > 0 && b.len() > 0 && c.len() > 0 && a[0] == b[0] && b[0] == c[0] {
        lemma_text_le_transitive(a.drop_first(), b.drop_first(), c.drop_first());
    }
}

pub open spec fn key_of(item: results::ItemData) -> Seq<char> {
    text::ascii_lower_text(item.label)
}

/// The sorted list with one more item, behind all that do not come after it.
pub open spec fn placed(sorted: Seq<results::ItemData>, item: results::ItemData) -> Seq<
    results::ItemData,
>
    decreases sorted.len(),
{
    if sorted.len() == 0 || text_le(key_of(sorted.last()), key_of(item)) {
        sorted.push(item)
    } else {
        placed(sorted.drop_last(), item).push(sorted.last())
    }
}

/// The items in the order of their labels.
pub open spec fn in_order(items: Seq<results::ItemData>) -> Seq<results::ItemData>
    decreases items.len(),
{
    if items.len() == 0 {
        Seq::empty()
    } else {
        placed(in_order(items.drop_last()), items.last())
    }
}

/// The items whose labels are the same but for the case of their letters, in their order.
pub open spec fn with_key(items: Seq<results::ItemData>, key: Seq<char>) -> Seq<results::ItemData>
    decreases items.len(),
{
    if items.len() == 0 {
        Seq::empty()
    } else if key_of(items.last()) == key {
        with_key(items.drop_last(), key).push(items.last())
    } else {
        with_key(items.drop_last(), key)
    }
}

pub open spec fn is_sorted(items: Seq<results::ItemData>) -> bool {
    forall|i: int, j: int|
        0 <= i <= j < items.len() ==> text_le(
            key_of(#[trigger] items[i]),
            key_of(#[trigger] items[j]),
        )
}

proof fn lemma_placed(sorted: Seq<results::ItemData>, item: results::ItemData, key: Seq<char>)
    requires
        is_sorted(sorted),
    ensures
        is_sorted(placed(sorted, item)),
        placed(sorted, item).to_multiset() == sorted.to_multiset().insert(item),
        with_key(placed(sorted, item), key) == with_key(sorted.push(item), key),
        forall|k: int|
            0 <= k < placed(sorted, item).len() ==> sorted.contains(
                #[trigger] placed(sorted, item)[k],
            ) || placed(sorted, item)[k] == item,
    decreases sorted.len(),
{
    broadcast use vstd::seq_lib::group_to_multiset_ensures;

    lemma_text_le_total(key_of(item), key_of(item));
    assert(sorted.push(item).drop_last() =~= sorted);
    if sorted.len() == 0 || text_le(key_of(sorted.last()), key_of(item)) {
        let all = sorted.push(item);
        assert forall|i: int, j: int| 0 <= i <= j < all.len() implies text_le(
            key_of(#[trigger] all[i]),
            key_of(#[trigger] all[j]),
        ) by {
            if i < sorted.len() && j == sorted.len() {
                assert(text_le(key_of(sorted[i]), key_of(sorted[sorted.len() - 1])));
                lemma_text_le_transitive(key_of(sorted[i]), key_of(sorted.last()), key_of(item));
            }
        }
        assert forall|k: int| 0 <= k < all.len() implies sorted.contains(#[trigger] all[k])
            || all[k] == item by {
            if k < sorted.len() {
                assert(sorted[k] == all[k]);
            }
        }
    } else {
        let before = sorted.drop_last();
        let last = sorted.last();
        assert(is_sorted(before));
        lemma_placed(before, item, key);
        lemma_text_le_total(key_of(last), key_of(item));
        let inner = placed(before, item);
        let all = inner.push(last);
        assert forall|i: int, j: int| 0 <= i <= j < all.len() implies text_le(
            key_of(#[trigger] all[i]),
            key_of(#[trigger] all[j]),
        ) by {
            if j == inner.len() && i < inner.len() {
                if before.contains(inner[i]) {
                    let k = choose|k: int| 0 <= k < before.len() && before[k] == inner[i];
                    assert(sorted[k] == inner[i]);
                    assert(text_le(key_of(sorted[k]), key_of(sorted[sorted.len() - 1])));
                }
            } else if i == inner.len() {
                lemma_text_le_total(key_of(last), key_of(last));
            }
        }
        assert(sorted =~= before.push(last));
        assert(all.to_multiset() =~= inner.to_multiset().insert(last));
        assert(sorted.to_multiset() =~= before.to_multiset().insert(last));
        assert(all.to_multiset() =~= sorted.to_multiset().insert(item));
        assert(all.drop_last() =~= inner);
        assert(before.push(item).drop_last() =~= before);
        assert(with_key(all, key) == if key_of(last) == key {
            with_key(inner, key).push(last)
        } else {
            with_key(inner, key)
        });
        assert(with_key(before.push(item), key) == if key_of(item) == key {
            with_key(before, key).push(item)
        } else {
            with_key(before, key)
        });
        assert(with_key(sorted.push(item), key) == if key_of(item) == key {
            with_key(sorted, key).push(item)
        } else {
            with_key(sorted, key)
        });
        assert forall|k: int| 0 <= k < all.len() implies sorted.contains(#[trigger] all[k])
            || all[k] == item by {
            if k < inner.len() {
                if before.contains(inner[k]) {
                    let p = choose|p: int| 0 <= p < before.len() && before[p] == inner[k];
                    assert(sorted[p] == all[k]);
                }
            } else {
                assert(sorted[sorted.len() - 1] == all[k]);
            }
        }
    }
}

/// Ordering items keeps them all, puts them in the order of their labels without regard to case,
/// and keeps the order of those whose labels do not differ.
pub proof fn law_order_is_stable(items: Seq<results::ItemData>, key: Seq<char>)
    ensures
        is_sorted(in_order(items)),
        in_order(items).to_multiset() == items.to_multiset(),
        with_key(in_order(items), key) == with_key(items, key),
    decreases items.len(),
{
    broadcast use vstd::seq_lib::group_to_multiset_ensures;

    if items.len() > 0 {
        let before = items.drop_last();
        law_order_is_stable(before, key);
        lemma_placed(in_order(before), items.last(), key);
        assert(items =~= before.push(items.last()));
        assert(in_order(before).push(items.last()).drop_last() =~= in_order(before));
    } else {
        assert(items =~= Seq::empty());
    }
}

// ---- the places below a root ----

pub open spec fn root_item_of(item: InfoData) -> Option<results::ItemData> {
    match place_of(item) {
        None => None,
        Some(target) => Some(
            results::ItemData { label: label_or(item.label, target), target, is_directory: true },
        ),
    }
}

pub open spec fn root_items_of(items: Seq<InfoData>) -> Seq<results::ItemData>
    decreases items.len(),
{
    if items.len() == 0 {
        Seq::empty()
    } else {
        let before = root_items_of(items.drop_last());
        match root_item_of(items.last()) {
            Some(item) => before.push(item),
            None => before,
        }
    }
}

proof fn lemma_placed_at(sorted: Seq<results::ItemData>, item: results::ItemData, at: int)
    requires
        0 <= at <= sorted.len(),
        at > 0 ==> text_le(key_of(sorted[at - 1]), key_of(item)),
        forall|i: int|
            at <= i < sorted.len() ==> !text_le(key_of(#[trigger] sorted[i]), key_of(item)),
    ensures
        placed(sorted, item) == sorted.insert(at, item),
    decreases sorted.len(),
{
    if sorted.len() > at {
        assert(!text_le(key_of(sorted[sorted.len() - 1]), key_of(item)));
        assert forall|i: int| at <= i < sorted.drop_last().len() implies !text_le(
            key_of(#[trigger] sorted.drop_last()[i]),
            key_of(item),
        ) by {
            assert(sorted.drop_last()[i] == sorted[i]);
        }
        lemma_placed_at(sorted.drop_last(), item, at);
        assert(placed(sorted, item) =~= sorted.insert(at, item));
    } else {
        assert(placed(sorted, item) =~= sorted.insert(at, item));
    }
}

fn lower_label(item: &NetworkRootItem) -> (key: Vec<char>)
    ensures
        key@ == key_of(item.data()),
{
    let chars = str_chars(&item.label);
    lower_chars(&chars)
}

fn place_item(sorted: &mut Vec<NetworkRootItem>, item: NetworkRootItem)
    ensures
        process::root_data(final(sorted)@) == placed(process::root_data(old(sorted)@), item.data()),
{
    let key = lower_label(&item);
    let n: usize = sorted.len();
    let mut at: usize = n;
    let ghost data = process::root_data(sorted@);
    let ghost mut stopped = false;
    while at > 0
        invariant_except_break
            !stopped,
        invariant
            at <= n,
            n == sorted@.len(),
            sorted@ == old(sorted)@,
            data == process::root_data(sorted@),
            key@ == key_of(item.data()),
            forall|i: int| at <= i < n ==> !text_le(key_of(#[trigger] data[i]), key@),
        ensures
            at > 0 ==> text_le(key_of(data[at - 1]), key@),
        decreases at,
    {
        let other = lower_label(&sorted[at - 1]);
        assert(data[at - 1] == sorted@[at - 1].data());
        if chars_le(&other, &key) {
            proof {
                stopped = true;
            }
            break;
        }
        at -= 1;
    }
    let ghost added = item.data();
    proof {
        lemma_placed_at(data, added, at as int);
    }
    sorted.insert(at, item);
    assert(process::root_data(sorted@) =~= data.insert(at as int, added));
}

/// The places below a root, in the order of their labels.
pub fn enumerate_network_root(items: &[ShellItemInfo]) -> (found: Vec<NetworkRootItem>)
    ensures
        process::root_data(found@) == in_order(root_items_of(info_data(items@))),
{
    let mut found: Vec<NetworkRootItem> = Vec::new();
    let n: usize = items.len();
    let mut i: usize = 0;
    let ghost data = info_data(items@);
    assert(data.take(0) =~= Seq::empty());
    assert(process::root_data(found@) =~= Seq::empty());
    while i < n
        invariant
            i <= n,
            n == items@.len(),
            data == info_data(items@),
            process::root_data(found@) == in_order(root_items_of(data.take(i as int))),
        decreases n - i,
    {
        proof {
            assert(data.take(i + 1).drop_last() =~= data.take(i as int));
            assert(data.take(i + 1).last() == items@[i as int].data());
        }
        match item_place(&items[i]) {
            Some(target) => {
                let label = item_label(&items[i].label, &target);
                let item = NetworkRootItem { label, target, is_directory: true };
                proof {
                    let before = root_items_of(data.take(i as int));
                    assert(before.push(item.data()).drop_last() =~= before);
                    assert(root_items_of(data.take(i + 1)) == before.push(item.data()));
                }
                place_item(&mut found, item);
            },
            None => {},
        }
        i += 1;
    }
    assert(data.take(n as int) =~= data);
    found
}

// ---- devices ----

/// The item is a device: its place begins with two backslashes.
pub open spec fn device_of(item: InfoData) -> Option<results::ItemData> {
    match root_item_of(item) {
        Some(found) => {
            let shown = text::utf16_lossy(found.target);
            if shown.len() >= 2 && shown[0] == '\\' && shown[1] == '\\' {
                Some(found)
            } else {
                None
            }
        },
        None => None,
    }
}

pub open spec fn devices_of(items: Seq<InfoData>) -> Seq<results::ItemData>
    decreases items.len(),
{
    if items.len() == 0 {
        Seq::empty()
    } else {
        let before = devices_of(items.drop_last());
        match device_of(items.last()) {
            Some(item) => before.push(item),
            None => before,
        }
    }
}

/// The devices that the shell shows.
pub fn enumerate_network_devices(items: &[ShellItemInfo]) -> (devices: Vec<NetworkDevice>)
    ensures
        process::device_data(devices@) == devices_of(info_data(items@)),
{
    let mut devices: Vec<NetworkDevice> = Vec::new();
    let n: usize = items.len();
    let mut i: usize = 0;
    let ghost data = info_data(items@);
    assert(data.take(0) =~= Seq::empty());
    assert(process::device_data(devices@) =~= Seq::empty());
    while i < n
        invariant
            i <= n,
            n == items@.len(),
            data == info_data(items@),
            process::device_data(devices@) == devices_of(data.take(i as int)),
        decreases n - i,
    {
        let ghost before = process::device_data(devices@);
        proof {
            assert(data.take(i + 1).drop_last() =~= data.take(i as int));
            assert(data.take(i + 1).last() == items@[i as int].data());
        }
        match item_place(&items[i]) {
            Some(target) => {
                let shown = decode_lossy(&target);
                if shown.len() >= 2 && shown[0] == '\\' && shown[1] == '\\' {
                    let label = item_label(&items[i].label, &target);
                    let device = NetworkDevice { label, target, is_directory: true };
                    let ghost added = device.data();
                    devices.push(device);
                    assert(process::device_data(devices@) =~= before.push(added));
                }
            },
            None => {},
        }
        i += 1;
    }
    assert(data.take(n as int) =~= data);
    devices
}

/// The name of the server of a network path, in the letters of the path.
pub open spec fn host_name(path: Seq<u16>) -> Option<Seq<char>> {
    match network::unc_host(path) {
        Some(host) => Some(text::utf16_lossy(host)),
        None => None,
    }
}

pub fn unc_host_display_name(path: &[u16]) -> (name: Option<String>)
    ensures
        helper::string_view(name) == host_name(path@),
{
    match unc_host_units(path) {
        Some(host) => {
            let chars = decode_lossy(&host);
            Some(string_from_chars(&chars))
        },
        None => None,
    }
}

/// The servers that the locations lead to, each once, in the order in which they first come.
pub open spec fn hosts_of(locations: Seq<LocationData>) -> Seq<Seq<char>>
    decreases locations.len(),
{
    if locations.len() == 0 {
        Seq::empty()
    } else {
        let before = hosts_of(locations.drop_last());
        match locations.last().target {
            Some(target) => match host_name(target) {
                Some(host) if !before.contains(host) => before.push(host),
                _ => before,
            },
            None => before,
        }
    }
}

pub open spec fn host_device(host: Seq<char>) -> results::ItemData {
    results::ItemData {
        label: host,
        target: text::utf16_encoded("\\\\"@ + host),
        is_directory: true,
    }
}

pub open spec fn host_devices(hosts: Seq<Seq<char>>) -> Seq<results::ItemData> {
    Seq::new(hosts.len(), |i: int| host_device(hosts[i]))
}

fn knows_host(devices: &Vec<NetworkDevice>, host: &str, Ghost(hosts): Ghost<Seq<Seq<char>>>) -> (
    known: bool)
    requires
        process::device_data(devices@) == host_devices(hosts),
    ensures
        known == hosts.contains(host@),
{
    let n: usize = devices.len();
    let mut i: usize = 0;
    assert(process::device_data(devices@).len() == hosts.len());
    while i < n
        invariant
            i <= n,
            n == devices@.len(),
            n == hosts.len(),
            process::device_data(devices@) == host_devices(hosts),
            forall|k: int| 0 <= k < i ==> hosts[k] != host@,
        decreases n - i,
    {
        let same = texts_equal(&devices[i].label, host);
        proof {
            assert(process::device_data(devices@)[i as int] == devices@[i as int].data());
            assert(host_devices(hosts)[i as int] == host_device(hosts[i as int]));
        }
        if same {
            assert(hosts[i as int] == host@);
            return true;
        }
        i += 1;
    }
    false
}

/// The servers of the imported locations, as devices.
pub fn network_devices_from_imported_locations(locations: &[NetworkLocation]) -> (devices: Vec<
    NetworkDevice,
>)
    ensures
        process::device_data(devices@) == host_devices(hosts_of(location_data(locations@))),
{
    let mut devices: Vec<NetworkDevice> = Vec::new();
    let n: usize = locations.len();
    let mut i: usize = 0;
    let ghost data = location_data(locations@);
    assert(data.take(0) =~= Seq::empty());
    assert(process::device_data(devices@) =~= host_devices(hosts_of(data.take(0))));
    while i < n
        invariant
            i <= n,
            n == locations@.len(),
            data == location_data(locations@),
            process::device_data(devices@) == host_devices(hosts_of(data.take(i as int))),
        decreases n - i,
    {
        let ghost hosts = hosts_of(data.take(i as int));
        proof {
            assert(data.take(i + 1).drop_last() =~= data.take(i as int));
            assert(data.take(i + 1).last() == locations@[i as int].data());
        }
        if let Some(target) = &locations[i].target {
            if let Some(host) = unc_host_display_name(target) {
                if !knows_host(&devices, &host, Ghost(hosts)) {
                    let mut root = text_of("\\\\");
                    push_text(&mut root, &host);
                    let target = encode_text(&root);
                    let ghost before = process::device_data(devices@);
                    let ghost name = host@;
                    devices.push(NetworkDevice { label: host, target, is_directory: true });
                    proof {
                        assert(process::device_data(devices@) =~= before.push(host_device(name)));
                        assert(host_devices(hosts.push(name)) =~= before.push(host_device(name)));
                    }
                }
            }
        }
        i += 1;
    }
    assert(data.take(n as int) =~= data);
    devices
}

/// No server comes twice.
pub proof fn law_hosts_are_distinct(locations: Seq<LocationData>)
    ensures
        hosts_of(locations).no_duplicates(),
    decreases locations.len(),
{
    if locations.len() > 0 {
        law_hosts_are_distinct(locations.drop_last());
    }
}

// ---- laws of the places ----

/// Both locations say the same.
pub open spec fn same_location(a: NetworkLocation, b: NetworkLocation) -> bool {
    &&& a.label@ == b.label@
    &&& a.shell_path@ == b.shell_path@
    &&& match (a.target, b.target) {
        (Some(x), Some(y)) => x@ == y@,
        (None, None) => true,
        _ => false,
    }
    &&& match (a.shell_identity, b.shell_identity) {
        (Some(x), Some(y)) => x@ == y@,
        (None, None) => true,
        _ => false,
    }
}

/// Where an item lies: in the file system where it is there, else in the shell.
pub proof fn law_an_item_lies_where_the_shell_says(item: ShellItemInfo, place: Option<Vec<u16>>)
    requires
        call_ensures(item_place, (&item,), place),
    ensures
        item.file_system_path matches Some(path) ==> (place matches Some(found) && found@ == path@),
        item.file_system_path is None ==> match item.parsing_path {
            Some(path) => place matches Some(found) && found@ == path@,
            None => place is None,
        },
{
}

/// The names of an item are those that the shell gave; an empty one counts as none.
pub proof fn law_an_item_has_the_names_of_the_shell(
    label: Option<&[u16]>,
    parsing: Option<&[u16]>,
    file_system: Option<&[u16]>,
    item: ShellItemInfo,
)
    requires
        call_ensures(shell_item_info, (label, parsing, file_system), item),
    ensures
        match (label, item.label) {
            (Some(units), Some(name)) => units@.len() > 0 && name@ == text::utf16_lossy(units@),
            (Some(units), None) => units@.len() == 0,
            (None, name) => name is None,
        },
        match (parsing, item.parsing_path) {
            (Some(units), Some(path)) => units@.len() > 0 && path@ == text::utf16_encoded(
                text::utf16_lossy(units@),
            ),
            (Some(units), None) => units@.len() == 0,
            (None, path) => path is None,
        },
        match (file_system, item.file_system_path) {
            (Some(units), Some(path)) => units@.len() > 0 && path@ == text::utf16_encoded(
                text::utf16_lossy(units@),
            ),
            (Some(units), None) => units@.len() == 0,
            (None, path) => path is None,
        },
{
    let data = item.data();
    assert(data.label == shown_name(codec::slice_view(label)));
    assert(data.parsing_path == helper::encoded(shown_name(codec::slice_view(parsing))));
    assert(data.file_system_path == helper::encoded(shown_name(codec::slice_view(file_system))));
}

/// One more imported item adds one location behind the others where it has a place, and nothing
/// otherwise. The location has that place, leads where the link of the item leads, or to its own
/// place if that is on the network, and bears the name that the shell shows.
pub proof fn law_each_imported_item_is_a_location(
    items: &[ImportedItem],
    item: ImportedItem,
    more: &[ImportedItem],
    before: Vec<NetworkLocation>,
    after: Vec<NetworkLocation>,
)
    requires
        more@ == items@.push(item),
        call_ensures(enumerate_network_locations, (items,), before),
        call_ensures(enumerate_network_locations, (more,), after),
    ensures
        items@.len() == 0 ==> before@.len() == 0,
        forall|i: int|
            0 <= i < before@.len() ==> same_location(#[trigger] after@[i], before@[i]),
        after@.len() == before@.len() + 1 <==> item.item.file_system_path is Some
            || item.item.parsing_path is Some,
        after@.len() == before@.len() || after@.len() == before@.len() + 1,
        after@.len() == before@.len() + 1 ==> {
            let last = after@.last();
            &&& item.item.file_system_path matches Some(path) ==> last.shell_path@ == path@
            &&& item.item.file_system_path is None ==> last.shell_path@
                == item.item.parsing_path->0@
            &&& item.resolved matches Some(path) ==> (last.target matches Some(target) && target@
                == path@)
            &&& item.resolved is None ==> (last.target is Some <==> network::is_unc(
                last.shell_path@,
            ))
            &&& item.resolved is None && last.target is Some ==> last.target->0@
                == last.shell_path@
            &&& item.item.label matches Some(label) ==> last.label@ == label@
            &&& match (item.item.parsing_path, last.shell_identity) {
                (Some(x), Some(y)) => x@ == y@,
                (None, None) => true,
                _ => false,
            }
        },
{
    assert(more@.drop_last() =~= items@);
    let a = location_data(before@);
    let b = location_data(after@);
    assert(a.len() == before@.len() && b.len() == after@.len());
    assert forall|i: int| 0 <= i < before@.len() implies same_location(
        #[trigger] after@[i],
        before@[i],
    ) by {
        assert(a[i] == b[i]);
        assert(after@[i].data() == before@[i].data());
    }
    if after@.len() == before@.len() + 1 {
        assert(b[after@.len() - 1] == after@.last().data());
        assert(Some(after@.last().data()) == location_of(item));
    }
}

proof fn lemma_root_items_from(items: Seq<InfoData>)
    ensures
        forall|j: int|
            0 <= j < root_items_of(items).len() ==> exists|i: int|
                0 <= i < items.len() && root_item_of(#[trigger] items[i]) == Some(
                    #[trigger] root_items_of(items)[j],
                ),
        forall|i: int|
            0 <= i < items.len() && root_item_of(#[trigger] items[i]) is Some ==> root_items_of(
                items,
            ).contains(root_item_of(items[i])->0),
    decreases items.len(),
{
    if items.len() > 0 {
        let short = items.drop_last();
        lemma_root_items_from(short);
        let before = root_items_of(short);
        let all = root_items_of(items);
        assert forall|j: int| 0 <= j < all.len() implies exists|i: int|
            0 <= i < items.len() && root_item_of(#[trigger] items[i]) == Some(
                #[trigger] all[j],
            ) by {
            if j < before.len() {
                assert(all[j] == before[j]);
                let i = choose|i: int|
                    0 <= i < short.len() && root_item_of(#[trigger] short[i]) == Some(before[j]);
                assert(items[i] == short[i]);
            } else {
                assert(root_item_of(items[items.len() - 1]) == Some(all[j]));
            }
        }
        assert forall|i: int|
            0 <= i < items.len() && root_item_of(
                #[trigger] items[i],
            ) is Some implies all.contains(root_item_of(items[i])->0) by {
            if i < short.len() {
                assert(short[i] == items[i]);
                let j = choose|j: int|
                    0 <= j < before.len() && before[j] == root_item_of(short[i])->0;
                assert(all[j] == before[j]);
            } else {
                assert(all[all.len() - 1] == root_item_of(items[i])->0);
            }
        }
    }
}

/// What is shown below a network root are the items that have a place: each at that place, under
/// its label where it has one, as a folder; none is lost, none is made up, and they come in the
/// order of their labels.
pub proof fn law_a_root_shows_its_items(items: &[ShellItemInfo], found: Vec<NetworkRootItem>)
    requires
        call_ensures(enumerate_network_root, (items,), found),
    ensures
        forall|j: int|
            0 <= j < found@.len() ==> (#[trigger] found@[j]).is_directory && exists|i: int|
                0 <= i < items@.len() && shows(found@[j], #[trigger] items@[i]),
        forall|i: int|
            0 <= i < items@.len() && ((#[trigger] items@[i]).file_system_path is Some
                || items@[i].parsing_path is Some) ==> exists|j: int|
                0 <= j < found@.len() && shows(#[trigger] found@[j], items@[i]),
        forall|i: int, j: int|
            0 <= i < j < found@.len() && (#[trigger] found@[i]).label@.len() > 0 && (
            #[trigger] found@[j]).label@.len() > 0 ==> (text::ascii_lower_text(
                found@[i].label@,
            )[0] as int) <= (text::ascii_lower_text(found@[j].label@)[0] as int),
{
    broadcast use vstd::seq_lib::group_to_multiset_ensures;

    let data = info_data(items@);
    let raw = root_items_of(data);
    let sorted = in_order(raw);
    lemma_root_items_from(data);
    law_order_is_stable(raw, Seq::empty());
    assert(process::root_data(found@).len() == found@.len());
    assert forall|j: int| 0 <= j < found@.len() implies (#[trigger] found@[j]).is_directory
        && exists|i: int| 0 <= i < items@.len() && shows(found@[j], #[trigger] items@[i]) by {
        assert(process::root_data(found@)[j] == found@[j].data());
        assert(sorted.contains(sorted[j]));
        assert(raw.to_multiset().count(sorted[j]) > 0);
        assert(raw.contains(sorted[j]));
        let k = choose|k: int| 0 <= k < raw.len() && raw[k] == sorted[j];
        let i = choose|i: int|
            0 <= i < data.len() && root_item_of(#[trigger] data[i]) == Some(raw[k]);
        assert(data[i] == items@[i].data());
        assert(shows(found@[j], items@[i]));
    }
    assert forall|i: int|
        0 <= i < items@.len() && ((#[trigger] items@[i]).file_system_path is Some
            || items@[i].parsing_path is Some) implies exists|j: int|
        0 <= j < found@.len() && shows(#[trigger] found@[j], items@[i]) by {
        assert(data[i] == items@[i].data());
        let item = root_item_of(data[i])->0;
        assert(raw.contains(item));
        assert(sorted.to_multiset().count(item) > 0);
        assert(sorted.contains(item));
        let j = choose|j: int| 0 <= j < sorted.len() && sorted[j] == item;
        assert(process::root_data(found@)[j] == found@[j].data());
        assert(shows(found@[j], items@[i]));
    }
    assert forall|i: int, j: int|
        0 <= i < j < found@.len() && (#[trigger] found@[i]).label@.len() > 0 && (
        #[trigger] found@[j]).label@.len() > 0 implies (text::ascii_lower_text(
        found@[i].label@,
    )[0] as int) <= (text::ascii_lower_text(found@[j].label@)[0] as int) by {
        assert(process::root_data(found@)[i] == found@[i].data());
        assert(process::root_data(found@)[j] == found@[j].data());
        assert(text_le(key_of(sorted[i]), key_of(sorted[j])));
    }
}

/// The shown place is that of the item, under its label.
pub open spec fn shows(found: NetworkRootItem, item: ShellItemInfo) -> bool {
    &&& match item.file_system_path {
        Some(path) => found.target@ == path@,
        None => item.parsing_path matches Some(path) && found.target@ == path@,
    }
    &&& item.label matches Some(label) ==> found.label@ == label@
    &&& item.label is None ==> found.label@ == text::utf16_lossy(found.target@)
}

/// One more item adds a device behind the others exactly where its place begins with two
/// backslashes; the device has that place and the label of the item.
pub proof fn law_devices_are_the_network_items(
    items: &[ShellItemInfo],
    item: ShellItemInfo,
    more: &[ShellItemInfo],
    before: Vec<NetworkDevice>,
    after: Vec<NetworkDevice>,
    place: Option<Vec<u16>>,
)
    requires
        more@ == items@.push(item),
        call_ensures(item_place, (&item,), place),
        call_ensures(enumerate_network_devices, (items,), before),
        call_ensures(enumerate_network_devices, (more,), after),
    ensures
        items@.len() == 0 ==> before@.len() == 0,
        forall|i: int|
            0 <= i < before@.len() ==> (#[trigger] after@[i]).target@ == before@[i].target@
                && after@[i].label@ == before@[i].label@,
        after@.len() == before@.len() + 1 <==> (place matches Some(path) && {
            let shown = text::utf16_lossy(path@);
            shown.len() >= 2 && shown[0] == '\\' && shown[1] == '\\'
        }),
        after@.len() == before@.len() || after@.len() == before@.len() + 1,
        after@.len() == before@.len() + 1 ==> after@.last().target@ == place->0@
            && after@.last().is_directory && match item.label {
            Some(label) => after@.last().label@ == label@,
            None => after@.last().label@ == text::utf16_lossy(place->0@),
        },
{
    let a = process::device_data(before@);
    let b = process::device_data(after@);
    assert(a.len() == before@.len() && b.len() == after@.len());
    assert(info_data(more@).drop_last() =~= info_data(items@));
    assert(info_data(more@).last() == item.data());
    assert forall|i: int| 0 <= i < before@.len() implies (#[trigger] after@[i]).target@
        == before@[i].target@ && after@[i].label@ == before@[i].label@ by {
        assert(a[i] == b[i]);
        assert(after@[i].data() == before@[i].data());
    }
    if after@.len() == before@.len() + 1 {
        assert(b[after@.len() - 1] == after@.last().data());
    }
}

/// One more location adds a device for its server exactly where the server is not yet among the
/// devices; the device is that server, at `\\server`.
pub proof fn law_servers_become_devices_once(
    locations: &[NetworkLocation],
    location: NetworkLocation,
    more: &[NetworkLocation],
    target: &[u16],
    host: Option<String>,
    before: Vec<NetworkDevice>,
    after: Vec<NetworkDevice>,
)
    requires
        more@ == locations@.push(location),
        location.target matches Some(path) && path@ == target@,
        call_ensures(unc_host_display_name, (target,), host),
        call_ensures(network_devices_from_imported_locations, (locations,), before),
        call_ensures(network_devices_from_imported_locations, (more,), after),
    ensures
        forall|i: int|
            0 <= i < before@.len() ==> (#[trigger] after@[i]).target@ == before@[i].target@
                && after@[i].label@ == before@[i].label@,
        after@.len() == before@.len() + 1 <==> (host matches Some(host) && forall|i: int|
            0 <= i < before@.len() ==> (#[trigger] before@[i]).label@ != host@),
        after@.len() == before@.len() || after@.len() == before@.len() + 1,
        after@.len() == before@.len() + 1 ==> after@.last().label@ == host->0@
            && after@.last().target@ == text::utf16_encoded("\\\\"@ + host->0@)
            && after@.last().is_directory,
{
    let hosts = hosts_of(location_data(locations@));
    let a = process::device_data(before@);
    let b = process::device_data(after@);
    assert(a.len() == before@.len() && b.len() == after@.len());
    assert(location_data(more@).drop_last() =~= location_data(locations@));
    assert(location_data(more@).last() == location.data());
    assert(location_data(more@).last().target == Some(target@));
    assert forall|i: int| 0 <= i < before@.len() implies hosts[i] == (
    #[trigger] before@[i]).label@ by {
        assert(a[i] == host_devices(hosts)[i]);
        assert(before@[i].data() == host_device(hosts[i]));
    }
    let later = hosts_of(location_data(more@));
    assert forall|i: int| 0 <= i < before@.len() implies (#[trigger] after@[i]).target@
        == before@[i].target@ && after@[i].label@ == before@[i].label@ by {
        assert(host_devices(later)[i] == host_devices(hosts)[i]);
        assert(a[i] == b[i]);
        assert(after@[i].data() == before@[i].data());
    }
    if let Some(name) = host {
        if hosts.contains(name@) {
            let k = choose|k: int| 0 <= k < hosts.len() && hosts[k] == name@;
            assert(before@[k].label@ == name@);
        } else {
            assert forall|i: int| 0 <= i < before@.len() implies (
            #[trigger] before@[i]).label@ != name@ by {
                assert(hosts[i] == before@[i].label@);
            }
            assert(b[after@.len() - 1] == host_devices(later)[after@.len() - 1]);
            assert(after@.last().data() == host_device(name@));
        }
    }
}

/// The link of an imported location is the item itself where it is a link, else one inside it.
pub proof fn law_links_are_found(place: &[u16], link: Vec<u16>)
    requires
        call_ensures(target_link, (place,), link),
    ensures
        link@ == place@ || link@ == winpath::joined(place@, text::utf16_encoded("target.lnk"@)),
        winpath::path_extension(place@) is None ==> link@ == winpath::joined(
            place@,
            text::utf16_encoded("target.lnk"@),
        ),
        winpath::path_extension(place@) == Some(text::utf16_encoded("lnk"@)) ==> link@ == place@,
{
}

} // verus!
