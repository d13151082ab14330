//! The effects of a drop, and how they follow from the sources, the target and the keys held.
use vstd::prelude::*;

use crate::text;
use crate::text::{chars_eq, decode_lossy, lower_chars};
use crate::winpath;
use crate::winpath::{parent_of, path_eq, starts_with_path};

verus! {

pub const ALLOW_COPY: u32 = 1;

pub const ALLOW_MOVE: u32 = 2;

pub const ALLOW_LINK: u32 = 4;

pub const DROPEFFECT_NONE: u32 = 0;

pub const DROPEFFECT_COPY: u32 = 1;

pub const DROPEFFECT_MOVE: u32 = 2;

pub const DROPEFFECT_LINK: u32 = 4;

pub const MK_LBUTTON: u32 = 1;

pub const MK_RBUTTON: u32 = 2;

pub const MK_SHIFT: u32 = 4;

pub const MK_CONTROL: u32 = 8;

pub const MK_ALT: u32 = 0x20;

/// The mask has one of the bits.
pub open spec fn has_bits(mask: u32, bits: u32) -> bool {
    mask & bits != 0
}

#[derive(Debug, Clone, Copy, PartialEq, Eq, Structural)]
pub enum DropEffect {
    Nothing,
    Copy,
    Move,
    Link,
}

pub open spec fn effect_name(effect: DropEffect) -> Seq<char> {
    match effect {
        DropEffect::Nothing => "none"@,
        DropEffect::Copy => "copy"@,
        DropEffect::Move => "move"@,
        DropEffect::Link => "link"@,
    }
}

/// The system's number for an effect.
pub open spec fn native_effect(effect: DropEffect) -> u32 {
    match effect {
        DropEffect::Nothing => DROPEFFECT_NONE,
        DropEffect::Copy => DROPEFFECT_COPY,
        DropEffect::Move => DROPEFFECT_MOVE,
        DropEffect::Link => DROPEFFECT_LINK,
    }
}

/// The effect that a mask stands for: moving before copying before linking.
pub open spec fn effect_of_native(mask: u32) -> DropEffect {
    if has_bits(mask, DROPEFFECT_MOVE) {
        DropEffect::Move
    } else if has_bits(mask, DROPEFFECT_COPY) {
        DropEffect::Copy
    } else if has_bits(mask, DROPEFFECT_LINK) {
        DropEffect::Link
    } else {
        DropEffect::Nothing
    }
}

impl Default for DropEffect {
    fn default() -> (effect: Self)
        ensures
            effect == DropEffect::Nothing,
    {
        DropEffect::Nothing
    }
}

impl DropEffect {
    pub fn name(self) -> (name: &'static str)
        ensures
            name@ == effect_name(self),
    {
        match self {
            DropEffect::Nothing => "none",
            DropEffect::Copy => "copy",
            DropEffect::Move => "move",
            DropEffect::Link => "link",
        }
    }

    pub fn native(self) -> (mask: u32)
        ensures
            mask == native_effect(self),
    {
        match self {
            DropEffect::Nothing => DROPEFFECT_NONE,
            DropEffect::Copy => DROPEFFECT_COPY,
            DropEffect::Move => DROPEFFECT_MOVE,
            DropEffect::Link => DROPEFFECT_LINK,
        }
    }

    pub fn from_native(mask: u32) -> (effect: Self)
        ensures
            effect == effect_of_native(mask),
    {
        if mask & DROPEFFECT_MOVE != 0 {
            DropEffect::Move
        } else if mask & DROPEFFECT_COPY != 0 {
            DropEffect::Copy
        } else if mask & DROPEFFECT_LINK != 0 {
            DropEffect::Link
        } else {
            DropEffect::Nothing
        }
    }
}

/// The effects that a source offers, out of copying, moving and linking.
pub fn allowed_effects(effect: u32) -> (allowed: u32)
    ensures
        allowed == effect & 7,
{
    let copy: u32 = if effect & DROPEFFECT_COPY != 0 {
        ALLOW_COPY
    } else {
        0
    };
    let moving: u32 = if effect & DROPEFFECT_MOVE != 0 {
        ALLOW_MOVE
    } else {
        0
    };
    let link: u32 = if effect & DROPEFFECT_LINK != 0 {
        ALLOW_LINK
    } else {
        0
    };
    let allowed: u32 = copy | moving | link;
    assert(copy | moving | link == effect & 7) by (bit_vector)
        requires
            copy == (if effect & 1 != 0 { 1u32 } else { 0u32 }),
            moving == (if effect & 2 != 0 { 2u32 } else { 0u32 }),
            link == (if effect & 4 != 0 { 4u32 } else { 0u32 }),
    ;
    allowed
}

/// The keys held, with the right button as it was while dragging.
pub fn drop_key_state(key_state: u32, tracked_right_button: bool) -> (keys: u32)
    ensures
        keys == if tracked_right_button {
            key_state | MK_RBUTTON
        } else {
            key_state
        },
{
    if tracked_right_button {
        key_state | MK_RBUTTON
    } else {
        key_state
    }
}

/// The path is the target or lies directly in it.
pub open spec fn is_at(path: Seq<u16>, target: Seq<u16>) -> bool {
    winpath::same_path(path, target) || (winpath::path_parent(path) matches Some(parent)
        && winpath::same_path(parent, target))
}

pub open spec fn any_at(paths: Seq<Seq<u16>>, target: Seq<u16>) -> bool {
    exists|i: int| 0 <= i < paths.len() && is_at(#[trigger] paths[i], target)
}

/// Whether one of the paths already is the target or lies directly in it.
pub fn is_same_location(paths: &[Vec<u16>], target: &[u16]) -> (same: bool)
    ensures
        same == any_at(winpath::path_views(paths@), target@),
{
    let mut i: usize = 0;
    while i < paths.len()
        invariant
            i <= paths@.len(),
            forall|j: int|
                0 <= j < i ==> !is_at(#[trigger] winpath::path_views(paths@)[j], target@),
        decreases paths@.len() - i,
    {
        let at = path_eq(paths[i].as_slice(), target) || match parent_of(paths[i].as_slice()) {
            Some(parent) => path_eq(parent.as_slice(), target),
            None => false,
        };
        assert(at == is_at(winpath::path_views(paths@)[i as int], target@));
        if at {
            return true;
        }
        i += 1;
    }
    false
}

pub open spec fn effects_at(paths: Seq<Seq<u16>>, target: Seq<u16>, offered: u32) -> u32 {
    if any_at(paths, target) {
        offered & (ALLOW_COPY | ALLOW_LINK)
    } else {
        offered
    }
}

/// The effects that make sense at a target: nothing is moved to where it already is.
pub fn allowed_effects_for_target(paths: &[Vec<u16>], target: &[u16], offered: u32) -> (allowed: u32)
    ensures
        allowed == effects_at(winpath::path_views(paths@), target@, offered),
{
    if is_same_location(paths, target) {
        offered & (ALLOW_COPY | ALLOW_LINK)
    } else {
        offered
    }
}

// ---- volumes ----

/// The text of a path, with backslashes only.
pub open spec fn backslash_text(path: Seq<u16>) -> Seq<char> {
    let raw = text::utf16_lossy(path);
    Seq::new(
        raw.len(),
        |i: int|
            if raw[i] == '/' {
                '\\'
            } else {
                raw[i]
            },
    )
}

pub fn path_text(path: &[u16]) -> (chars: Vec<char>)
    ensures
        chars@ == backslash_text(path@),
{
    let mut chars = decode_lossy(path);
    let n: usize = chars.len();
    let ghost raw = chars@;
    let mut i: usize = 0;
    while i < n
        invariant
            i <= n,
            n == chars@.len(),
            n == raw.len(),
            raw == text::utf16_lossy(path@),
            forall|j: int| 0 <= j < i ==> #[trigger] chars@[j] == backslash_text(path@)[j],
            forall|j: int| i <= j < n ==> #[trigger] chars@[j] == raw[j],
        decreases n - i,
    {
        if chars[i] == '/' {
            chars.set(i, '\\');
        }
        i += 1;
    }
    assert(chars@ =~= backslash_text(path@));
    chars
}

/// The position of the next backslash, or the end.
pub open spec fn next_backslash(chars: Seq<char>, from: int) -> int
    decreases chars.len() - from,
{
    if from >= chars.len() {
        chars.len() as int
    } else if chars[from] == '\\' {
        from
    } else {
        next_backslash(chars, from + 1)
    }
}

/// The volume that a path is on: its server and share, or its drive letter.
pub open spec fn volume_of(path: Seq<u16>) -> Option<Seq<char>> {
    let t = backslash_text(path);
    if t.len() >= 2 && t[0] == '\\' && t[1] == '\\' {
        let server_end = next_backslash(t, 2);
        if server_end < t.len() {
            Some(t.subrange(0, next_backslash(t, server_end + 1)))
        } else {
            None
        }
    } else if t.len() >= 2 && (t[0] as u32) < 0x80 && t[1] == ':' {
        Some(t.subrange(0, 2))
    } else {
        None
    }
}

pub open spec fn on_same_volume(source: Seq<u16>, target: Seq<u16>) -> bool {
    match (volume_of(source), volume_of(target)) {
        (Some(a), Some(b)) => text::ascii_lower_text(a) == text::ascii_lower_text(b),
        _ => false,
    }
}

fn find_backslash(chars: &Vec<char>, from: usize) -> (at: usize)
    requires
        from <= chars@.len(),
    ensures
        at == next_backslash(chars@, from as int),
        from <= at <= chars@.len(),
{
    let mut at: usize = from;
    while at < chars.len() && chars[at] != '\\'
        invariant
            from <= at <= chars@.len(),
            next_backslash(chars@, from as int) == next_backslash(chars@, at as int),
        decreases chars@.len() - at,
    {
        at += 1;
    }
    at
}

fn volume_identity(path: &[u16]) -> (volume: Option<Vec<char>>)
    ensures
        volume is Some <==> volume_of(path@) is Some,
        volume matches Some(volume) ==> volume_of(path@) == Some(volume@),
{
    let chars = path_text(path);
    let n: usize = chars.len();
    if n >= 2 && chars[0] == '\\' && chars[1] == '\\' {
        let server_end: usize = find_backslash(&chars, 2);
        if server_end < n {
            let share_end: usize = find_backslash(&chars, server_end + 1);
            Some(
                vstd::slice::slice_to_vec(
                    vstd::slice::slice_subrange(chars.as_slice(), 0, share_end),
                ),
            )
        } else {
            None
        }
    } else if n >= 2 && (chars[0] as u32) < 0x80 && chars[1] == ':' {
        Some(vstd::slice::slice_to_vec(vstd::slice::slice_subrange(chars.as_slice(), 0, 2)))
    } else {
        None
    }
}

/// Whether both paths are on the same drive or share.
pub fn same_volume(source: &[u16], target: &[u16]) -> (same: bool)
    ensures
        same == on_same_volume(source@, target@),
{
    match (volume_identity(source), volume_identity(target)) {
        (Some(a), Some(b)) => chars_eq(
            lower_chars(a.as_slice()).as_slice(),
            lower_chars(b.as_slice()).as_slice(),
        ),
        _ => false,
    }
}

// ---- negotiation ----

pub open spec fn reason_of(reason: Option<&'static str>) -> Option<Seq<char>> {
    match reason {
        Some(reason) => Some(reason@),
        None => None,
    }
}

pub open spec fn any_above(paths: Seq<Seq<u16>>, target: Seq<u16>) -> bool {
    exists|i: int| 0 <= i < paths.len() && winpath::path_starts_with(target, #[trigger] paths[i])
}

pub open spec fn all_on_volume(paths: Seq<Seq<u16>>, target: Seq<u16>) -> bool {
    forall|i: int| 0 <= i < paths.len() ==> on_same_volume(#[trigger] paths[i], target)
}

/// Alt, or Control and Shift together, ask for a link.
pub open spec fn link_keys(keys: u32) -> bool {
    has_bits(keys, MK_ALT) || (has_bits(keys, MK_CONTROL) && has_bits(keys, MK_SHIFT))
}

/// What dropping the paths on a directory does, or why it does nothing.
pub open spec fn negotiated(paths: Seq<Seq<u16>>, target: Option<Seq<u16>>, keys: u32) -> (
    DropEffect,
    Option<Seq<char>>,
) {
    match target {
        None => (DropEffect::Nothing, Some("target_unavailable"@)),
        Some(target) => if paths.len() == 0 {
            (DropEffect::Nothing, Some("unsupported_data"@))
        } else if any_at(paths, target) {
            if link_keys(keys) {
                (DropEffect::Link, None)
            } else if has_bits(keys, MK_CONTROL) || has_bits(keys, MK_RBUTTON) {
                (DropEffect::Copy, None)
            } else {
                (DropEffect::Nothing, Some("same_location"@))
            }
        } else if any_above(paths, target) {
            (DropEffect::Nothing, Some("source_or_descendant"@))
        } else if link_keys(keys) {
            (DropEffect::Link, None)
        } else if has_bits(keys, MK_CONTROL) {
            (DropEffect::Copy, None)
        } else if has_bits(keys, MK_SHIFT) {
            (DropEffect::Move, None)
        } else if all_on_volume(paths, target) {
            (DropEffect::Move, None)
        } else {
            (DropEffect::Copy, None)
        },
    }
}

fn holds_link_keys(keys: u32) -> (held: bool)
    ensures
        held == link_keys(keys),
{
    assert((keys & 12 == 12) == (keys & 8 != 0 && keys & 4 != 0)) by (bit_vector);
    assert(8u32 | 4u32 == 12u32) by (bit_vector);
    keys & MK_ALT != 0 || keys & (MK_CONTROL | MK_SHIFT) == (MK_CONTROL | MK_SHIFT)
}

fn is_below_any(paths: &[Vec<u16>], target: &[u16]) -> (below: bool)
    ensures
        below == any_above(winpath::path_views(paths@), target@),
{
    let mut i: usize = 0;
    while i < paths.len()
        invariant
            i <= paths@.len(),
            forall|j: int|
                0 <= j < i ==> !winpath::path_starts_with(
                    target@,
                    #[trigger] winpath::path_views(paths@)[j],
                ),
        decreases paths@.len() - i,
    {
        let below = starts_with_path(target, paths[i].as_slice());
        assert(below == winpath::path_starts_with(
            target@,
            winpath::path_views(paths@)[i as int],
        ));
        if below {
            return true;
        }
        i += 1;
    }
    false
}

fn is_one_volume(paths: &[Vec<u16>], target: &[u16]) -> (one: bool)
    ensures
        one == all_on_volume(winpath::path_views(paths@), target@),
{
    let mut i: usize = 0;
    while i < paths.len()
        invariant
            i <= paths@.len(),
            forall|j: int|
                0 <= j < i ==> on_same_volume(#[trigger] winpath::path_views(paths@)[j], target@),
        decreases paths@.len() - i,
    {
        let same = same_volume(paths[i].as_slice(), target);
        assert(same == on_same_volume(winpath::path_views(paths@)[i as int], target@));
        if !same {
            return false;
        }
        i += 1;
    }
    true
}

/// What dropping the paths on a directory does, or why it does nothing.
pub fn negotiate_effect(paths: &[Vec<u16>], target: Option<&[u16]>, key_state: u32) -> (r: (
    DropEffect,
    Option<&'static str>,
))
    ensures
        (r.0, reason_of(r.1)) == negotiated(
            winpath::path_views(paths@),
            match target {
                Some(target) => Some(target@),
                None => None,
            },
            key_state,
        ),
{
    match target {
        None => (DropEffect::Nothing, Some("target_unavailable")),
        Some(target) => {
            if paths.len() == 0 {
                return (DropEffect::Nothing, Some("unsupported_data"));
            }
            if is_same_location(paths, target) {
                if holds_link_keys(key_state) {
                    return (DropEffect::Link, None);
                }
                if key_state & MK_CONTROL != 0 || key_state & MK_RBUTTON != 0 {
                    return (DropEffect::Copy, None);
                }
                return (DropEffect::Nothing, Some("same_location"));
            }
            if is_below_any(paths, target) {
                return (DropEffect::Nothing, Some("source_or_descendant"));
            }
            if holds_link_keys(key_state) {
                return (DropEffect::Link, None);
            }
            if key_state & MK_CONTROL != 0 {
                return (DropEffect::Copy, None);
            }
            if key_state & MK_SHIFT != 0 {
                return (DropEffect::Move, None);
            }
            if is_one_volume(paths, target) {
                (DropEffect::Move, None)
            } else {
                (DropEffect::Copy, None)
            }
        },
    }
}

// ---- laws ----

/// Whatever the keys, nothing is moved to where it already is, and the effects left to choose from
/// there hold no move either.
pub proof fn law_same_location_is_never_moved(
    paths: Seq<Seq<u16>>,
    target: Seq<u16>,
    keys: u32,
    offered: u32,
)
    requires
        any_at(paths, target),
    ensures
        negotiated(paths, Some(target), keys).0 != DropEffect::Move,
        !has_bits(effects_at(paths, target, offered), ALLOW_MOVE),
{
    assert((offered & (1u32 | 4u32)) & 2 == 0) by (bit_vector);
}

/// A directory is never dropped into itself or below itself, whatever the keys.
pub proof fn law_no_drop_below_a_source(paths: Seq<Seq<u16>>, target: Seq<u16>, keys: u32)
    requires
        any_above(paths, target),
        !any_at(paths, target),
    ensures
        negotiated(paths, Some(target), keys).0 == DropEffect::Nothing,
{
}

/// A refusal always comes with a reason, and a reason only with a refusal.
pub proof fn law_reason_exactly_when_refused(
    paths: Seq<Seq<u16>>,
    target: Option<Seq<u16>>,
    keys: u32,
)
    ensures
        negotiated(paths, target, keys).0 == DropEffect::Nothing <==> negotiated(
            paths,
            target,
            keys,
        ).1 is Some,
{
}

/// Choosing effects for a target never adds one that the source did not offer.
pub proof fn law_effects_are_only_taken_away(
    paths: Seq<Seq<u16>>,
    target: Seq<u16>,
    offered: u32,
)
    ensures
        effects_at(paths, target, offered) & !offered == 0,
{
    assert((offered & (1u32 | 4u32)) & !offered == 0) by (bit_vector);
    assert(offered & !offered == 0) by (bit_vector);
}

/// An effect survives its way through the system's number.
pub proof fn law_native_effect_round_trip(effect: DropEffect)
    ensures
        effect_of_native(native_effect(effect)) == effect,
{
    assert(0u32 & 2 == 0 && 0u32 & 1 == 0 && 0u32 & 4 == 0) by (bit_vector);
    assert(1u32 & 2 == 0 && 1u32 & 1 != 0) by (bit_vector);
    assert(2u32 & 2 != 0) by (bit_vector);
    assert(4u32 & 2 == 0 && 4u32 & 1 == 0 && 4u32 & 4 != 0) by (bit_vector);
}

// ---- laws of the keys ----

/// Some path is the target or lies directly in it.
pub open spec fn some_at(paths: Seq<Vec<u16>>, target: Seq<u16>) -> bool {
    exists|i: int|
        0 <= i < paths.len() && (winpath::same_path((#[trigger] paths[i])@, target) || (
        winpath::path_parent(paths[i]@) matches Some(parent) && winpath::same_path(
            parent,
            target,
        )))
}

proof fn lemma_some_at(paths: Seq<Vec<u16>>, target: Seq<u16>)
    ensures
        any_at(winpath::path_views(paths), target) == some_at(paths, target),
{
    let views = winpath::path_views(paths);
    if any_at(views, target) {
        let i = choose|i: int| 0 <= i < views.len() && is_at(#[trigger] views[i], target);
        assert(views[i] == paths[i]@);
    }
    if some_at(paths, target) {
        let i = choose|i: int|
            0 <= i < paths.len() && (winpath::same_path((#[trigger] paths[i])@, target) || (
            winpath::path_parent(paths[i]@) matches Some(parent) && winpath::same_path(
                parent,
                target,
            )));
        assert(views[i] == paths[i]@);
        assert(is_at(views[i], target));
    }
}

proof fn lemma_some_above(paths: Seq<Vec<u16>>, target: Seq<u16>)
    ensures
        any_above(winpath::path_views(paths), target) == exists|i: int|
            0 <= i < paths.len() && winpath::path_starts_with(target, (#[trigger] paths[i])@),
        all_on_volume(winpath::path_views(paths), target) == forall|i: int|
            0 <= i < paths.len() ==> on_same_volume((#[trigger] paths[i])@, target),
{
    let views = winpath::path_views(paths);
    assert(views.len() == paths.len());
    assert forall|i: int| 0 <= i < paths.len() implies #[trigger] views[i] == paths[i]@ by {}
    if exists|i: int|
        0 <= i < paths.len() && winpath::path_starts_with(target, (#[trigger] paths[i])@) {
        let i = choose|i: int|
            0 <= i < paths.len() && winpath::path_starts_with(target, (#[trigger] paths[i])@);
        assert(winpath::path_starts_with(target, views[i]));
    }
    if any_above(views, target) {
        let i = choose|i: int|
            0 <= i < views.len() && winpath::path_starts_with(target, #[trigger] views[i]);
        assert(views[i] == paths[i]@);
    }
    if all_on_volume(views, target) {
        assert forall|i: int| 0 <= i < paths.len() implies on_same_volume(
            (#[trigger] paths[i])@,
            target,
        ) by {
            assert(on_same_volume(views[i], target));
        }
    }
    if forall|i: int| 0 <= i < paths.len() ==> on_same_volume((#[trigger] paths[i])@, target) {
        assert forall|i: int| 0 <= i < views.len() implies on_same_volume(
            #[trigger] views[i],
            target,
        ) by {
            assert(on_same_volume(paths[i]@, target));
        }
    }
}

/// What a drop on another folder does: Alt, or Control with Shift, links; Control copies; Shift
/// moves; without keys files move on one volume and are copied to another. A folder is never
/// dropped below itself.
pub proof fn law_keys_choose_the_effect(
    paths: &[Vec<u16>],
    target: &[u16],
    keys: u32,
    r: (DropEffect, Option<&'static str>),
)
    requires
        paths@.len() > 0,
        !some_at(paths@, target@),
        call_ensures(negotiate_effect, (paths, Some(target), keys), r),
    ensures
        ({
            let below = exists|i: int|
                0 <= i < paths@.len() && winpath::path_starts_with(
                    target@,
                    (#[trigger] paths@[i])@,
                );
            let link = keys & 0x20 != 0 || (keys & 8 != 0 && keys & 4 != 0);
            let one_volume = forall|i: int|
                0 <= i < paths@.len() ==> on_same_volume((#[trigger] paths@[i])@, target@);
            &&& below <==> r.0 == DropEffect::Nothing
            &&& r.1 is Some <==> r.0 == DropEffect::Nothing
            &&& !below && link ==> r.0 == DropEffect::Link
            &&& !below && !link && keys & 8 != 0 ==> r.0 == DropEffect::Copy
            &&& !below && !link && keys & 8 == 0 && keys & 4 != 0 ==> r.0 == DropEffect::Move
            &&& !below && !link && keys & 8 == 0 && keys & 4 == 0 ==> (r.0 == DropEffect::Move <==>
                one_volume)
            &&& !below && !link && keys & 8 == 0 && keys & 4 == 0 ==> (r.0 == DropEffect::Copy <==>
                !one_volume)
        }),
{
    lemma_some_at(paths@, target@);
    lemma_some_above(paths@, target@);
}

/// Where something already lies it is linked or copied on request, and otherwise left alone.
pub proof fn law_a_drop_in_place_needs_a_key(
    paths: &[Vec<u16>],
    target: &[u16],
    keys: u32,
    r: (DropEffect, Option<&'static str>),
)
    requires
        paths@.len() > 0,
        some_at(paths@, target@),
        call_ensures(negotiate_effect, (paths, Some(target), keys), r),
    ensures
        ({
            let link = keys & 0x20 != 0 || (keys & 8 != 0 && keys & 4 != 0);
            &&& r.0 == DropEffect::Link <==> link
            &&& r.0 == DropEffect::Copy <==> !link && (keys & 8 != 0 || keys & 2 != 0)
            &&& r.0 == DropEffect::Nothing <==> !link && keys & 8 == 0 && keys & 2 == 0
            &&& r.1 is Some <==> r.0 == DropEffect::Nothing
        }),
{
    lemma_some_at(paths@, target@);
}

/// Without a target, or without files, nothing is dropped.
pub proof fn law_a_drop_needs_files_and_a_target(
    paths: &[Vec<u16>],
    target: Option<&[u16]>,
    keys: u32,
    r: (DropEffect, Option<&'static str>),
)
    requires
        paths@.len() == 0 || target is None,
        call_ensures(negotiate_effect, (paths, target, keys), r),
    ensures
        r.0 == DropEffect::Nothing && r.1 is Some,
{
}

/// At a target nothing is offered that was not offered, and all that was, but for a move to where
/// something already lies.
pub proof fn law_only_the_move_in_place_is_withdrawn(
    paths: &[Vec<u16>],
    target: &[u16],
    offered: u32,
    allowed: u32,
)
    requires
        offered <= 7,
        call_ensures(allowed_effects_for_target, (paths, target, offered), allowed),
    ensures
        allowed & 1 == offered & 1,
        allowed & 4 == offered & 4,
        allowed & 2 == if some_at(paths@, target@) {
            0
        } else {
            offered & 2
        },
{
    lemma_some_at(paths@, target@);
    assert((offered & (1u32 | 4u32)) & 1 == offered & 1 && (offered & (1u32 | 4u32)) & 4 == offered
        & 4 && (offered & (1u32 | 4u32)) & 2 == 0) by (bit_vector);
}

/// An effect reported by the system counts as a move before a copy before a link.
pub proof fn law_reported_effects_are_read(mask: u32, effect: DropEffect, back: u32)
    requires
        call_ensures(DropEffect::from_native, (mask,), effect),
        call_ensures(DropEffect::native, (effect,), back),
    ensures
        effect == DropEffect::Move <==> mask & 2 != 0,
        effect == DropEffect::Copy <==> mask & 2 == 0 && mask & 1 != 0,
        effect == DropEffect::Link <==> mask & 2 == 0 && mask & 1 == 0 && mask & 4 != 0,
        back == match effect {
            DropEffect::Nothing => 0u32,
            DropEffect::Copy => 1u32,
            DropEffect::Move => 2u32,
            DropEffect::Link => 4u32,
        },
{
}

/// Two paths on drives are on one volume exactly where their drive letters are the same but for
/// case, whatever follows.
pub proof fn law_drives_are_volumes(source: &[u16], target: &[u16], same: bool)
    requires
        source@.len() >= 2 && target@.len() >= 2,
        0x41 <= source@[0] <= 0x5a || 0x61 <= source@[0] <= 0x7a,
        0x41 <= target@[0] <= 0x5a || 0x61 <= target@[0] <= 0x7a,
        source@[1] == 0x3a && target@[1] == 0x3a,
        call_ensures(same_volume, (source, target), same),
    ensures
        same <==> source@[0] == target@[0] || source@[0] == target@[0] + 0x20 || source@[0] + 0x20
            == target@[0],
{
    lemma_drive_text(source@);
    lemma_drive_text(target@);
    let a = volume_of(source@)->0;
    let b = volume_of(target@)->0;
    assert(a.len() == 2 && b.len() == 2);
    let la = text::ascii_lower_text(a);
    let lb = text::ascii_lower_text(b);
    assert(la.len() == 2 && lb.len() == 2);
    if la[0] == lb[0] {
        assert(la =~= lb);
    }
    if la == lb {
        assert(la[0] == lb[0]);
    }
}

proof fn lemma_drive_text(path: Seq<u16>)
    requires
        path.len() >= 2,
        0x41 <= path[0] <= 0x5a || 0x61 <= path[0] <= 0x7a,
        path[1] == 0x3a,
    ensures
        volume_of(path) is Some,
        volume_of(path)->0.len() == 2,
        volume_of(path)->0[0] as u32 == path[0],
        volume_of(path)->0[1] == ':',
{
    let rest = path.subrange(1, path.len() as int);
    assert(text::utf16_lossy(path) == seq![path[0] as char] + text::utf16_lossy(rest));
    assert(text::utf16_lossy(rest) == seq![rest[0] as char] + text::utf16_lossy(
        rest.subrange(1, rest.len() as int),
    ));
    let raw = text::utf16_lossy(path);
    assert(raw[0] == path[0] as char && raw[1] == 0x3au16 as char);
}

/// A drop is in place exactly where one of the paths is the target or lies directly in it; and a mask
/// keeps the three effects that are known.
pub proof fn law_a_path_is_in_place_in_its_folder(
    folder: &[u16],
    name: Seq<u16>,
    paths: &[Vec<u16>],
    at: int,
    same: bool,
    none: &[Vec<u16>],
    nowhere: bool,
)
    requires
        winpath::plain_folder(folder@),
        winpath::plain_name(name),
        0 <= at < paths@.len(),
        paths@[at]@ == folder@.push(0x5c) + name || paths@[at]@ == folder@,
        call_ensures(is_same_location, (paths, folder), same),
        none@.len() == 0,
        call_ensures(is_same_location, (none, folder), nowhere),
    ensures
        same,
        !nowhere,
{
    winpath::lemma_below(folder@, name);
    let views = winpath::path_views(paths@);
    assert(views[at] == paths@[at]@);
    assert(is_at(views[at], folder@));
}

/// A mask keeps the effects that are known, and no other bit of it.
pub proof fn law_unknown_effects_are_dropped(effect: u32, allowed: u32)
    requires
        call_ensures(allowed_effects, (effect,), allowed),
    ensures
        allowed & 1 == effect & 1 && allowed & 2 == effect & 2 && allowed & 4 == effect & 4,
        allowed <= 7,
{
    assert((effect & 7) & 1 == effect & 1 && (effect & 7) & 2 == effect & 2 && (effect & 7) & 4
        == effect & 4 && effect & 7 <= 7) by (bit_vector);
}

} // verus!
