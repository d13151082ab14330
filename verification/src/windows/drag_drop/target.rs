//! A window as the target of drops: where the pointer is, what is being dragged, and what a drop
//! there leads to.
use vstd::prelude::*;

use crate::text;
use crate::text::{decode_lossy, string_from_chars};
use crate::winpath;
use crate::winpath::{copy_paths, path_lists_eq, units_copy_all};
use crate::windows::drag_drop::effects;
use crate::windows::drag_drop::effects::{
    allowed_effects, allowed_effects_for_target, drop_key_state, negotiate_effect, DropEffect,
    ALLOW_COPY, ALLOW_LINK, ALLOW_MOVE, MK_RBUTTON,
};
use crate::windows::drag_drop::staging;
use crate::windows::drag_drop::staging::is_ephemeral_drop;
use crate::windows::drag_drop::tab::TabDragPayload;

verus! {

// ---- where the pointer is ----

#[derive(Debug, Clone, PartialEq, Eq)]
pub enum DropTarget {
    Directory(Vec<u16>),
    QuickAccessPin,
}

/// A drop target as a value.
pub enum Place {
    Directory(Seq<u16>),
    QuickAccessPin,
}

impl View for DropTarget {
    type V = Place;

    open spec fn view(&self) -> Place {
        match self {
            DropTarget::Directory(path) => Place::Directory(path@),
            DropTarget::QuickAccessPin => Place::QuickAccessPin,
        }
    }
}

pub open spec fn place_of(target: Option<DropTarget>) -> Option<Place> {
    match target {
        Some(target) => Some(target@),
        None => None,
    }
}

/// A rectangle on the screen, without its right and bottom edge.
#[derive(Debug, Clone, Copy, PartialEq, Eq, Structural)]
pub struct DropTargetRect {
    pub left: i32,
    pub top: i32,
    pub right: i32,
    pub bottom: i32,
}

#[derive(Debug, Clone)]
pub struct FolderDropTarget {
    pub left: i32,
    pub top: i32,
    pub right: i32,
    pub bottom: i32,
    pub path: Vec<u16>,
}

/// The targets that a window shows: a pin area, rows of folders, and the folder it is in.
#[derive(Debug, Clone)]
pub struct DropTargetSnapshot {
    pub current: Option<Vec<u16>>,
    pub folder_rows: Vec<FolderDropTarget>,
    pub quick_access_pin: Option<DropTargetRect>,
}

impl Default for DropTargetSnapshot {
    fn default() -> (snapshot: Self)
        ensures
            snapshot.current is None,
            snapshot.folder_rows@.len() == 0,
            snapshot.quick_access_pin is None,
    {
        DropTargetSnapshot { current: None, folder_rows: Vec::new(), quick_access_pin: None }
    }
}

/// A point on the screen.
#[derive(Debug, Clone, Copy, PartialEq, Eq, Structural)]
pub struct ScreenPoint {
    pub x: i32,
    pub y: i32,
}

pub open spec fn rect_holds(rect: DropTargetRect, p: ScreenPoint) -> bool {
    rect.left <= p.x < rect.right && rect.top <= p.y < rect.bottom
}

pub open spec fn row_holds(row: FolderDropTarget, p: ScreenPoint) -> bool {
    row.left <= p.x < row.right && row.top <= p.y < row.bottom
}

/// The folder of the first row, from one on, that the point is in.
pub open spec fn row_folder(rows: Seq<FolderDropTarget>, from: int, p: ScreenPoint) -> Option<
    Seq<u16>,
>
    decreases rows.len() - from,
{
    if from >= rows.len() {
        None
    } else if row_holds(rows[from], p) {
        Some(rows[from].path@)
    } else {
        row_folder(rows, from + 1, p)
    }
}

/// The target under a point: the pin area before the rows, the rows before the window's folder.
pub open spec fn place_at(snapshot: DropTargetSnapshot, p: ScreenPoint) -> Option<Place> {
    if snapshot.quick_access_pin matches Some(rect) && rect_holds(rect, p) {
        Some(Place::QuickAccessPin)
    } else {
        match row_folder(snapshot.folder_rows@, 0, p) {
            Some(path) => Some(Place::Directory(path)),
            None => match snapshot.current {
                Some(path) => Some(Place::Directory(path@)),
                None => None,
            },
        }
    }
}

impl DropTargetSnapshot {
    pub fn target_at(&self, point: ScreenPoint) -> (target: Option<DropTarget>)
        ensures
            place_of(target) == place_at(*self, point),
    {
        let pinned = match self.quick_access_pin {
            Some(rect) => point.x >= rect.left && point.x < rect.right && point.y >= rect.top
                && point.y < rect.bottom,
            None => false,
        };
        if pinned {
            return Some(DropTarget::QuickAccessPin);
        }
        let mut i: usize = 0;
        while i < self.folder_rows.len()
            invariant
                i <= self.folder_rows@.len(),
                !(self.quick_access_pin matches Some(rect) && rect_holds(rect, point)),
                row_folder(self.folder_rows@, 0, point) == row_folder(
                    self.folder_rows@,
                    i as int,
                    point,
                ),
            decreases self.folder_rows@.len() - i,
        {
            let row = &self.folder_rows[i];
            if point.x >= row.left && point.x < row.right && point.y >= row.top && point.y
                < row.bottom {
                return Some(DropTarget::Directory(units_copy_all(row.path.as_slice())));
            }
            i += 1;
        }
        match &self.current {
            Some(path) => Some(DropTarget::Directory(units_copy_all(path.as_slice()))),
            None => None,
        }
    }
}

// ---- what may happen there ----

/// What dropping the paths on a target does, or why it does nothing.
pub open spec fn negotiated_at(paths: Seq<Seq<u16>>, place: Option<Place>, keys: u32) -> (
    DropEffect,
    Option<Seq<char>>,
) {
    match place {
        Some(Place::QuickAccessPin) => if paths.len() == 1 {
            (DropEffect::Link, None)
        } else {
            (DropEffect::Nothing, Some("quick_access_requires_one_folder"@))
        },
        Some(Place::Directory(path)) => effects::negotiated(paths, Some(path), keys),
        None => effects::negotiated(paths, None, keys),
    }
}

pub fn negotiate_target_effect(
    paths: &[Vec<u16>],
    target: Option<&DropTarget>,
    key_state: u32,
) -> (r: (DropEffect, Option<&'static str>))
    ensures
        (r.0, effects::reason_of(r.1)) == negotiated_at(
            winpath::path_views(paths@),
            match target {
                Some(target) => Some(target@),
                None => None,
            },
            key_state,
        ),
{
    match target {
        Some(DropTarget::QuickAccessPin) => if paths.len() == 1 {
            (DropEffect::Link, None)
        } else {
            (DropEffect::Nothing, Some("quick_access_requires_one_folder"))
        },
        Some(DropTarget::Directory(path)) => negotiate_effect(
            paths,
            Some(path.as_slice()),
            key_state,
        ),
        None => negotiate_effect(paths, None, key_state),
    }
}

/// What dropping data that has to be copied first does: only directories take it.
pub open spec fn copied_at(place: Option<Place>, allowed: u32) -> (DropEffect, Option<Seq<char>>) {
    match place {
        Some(Place::Directory(_)) => if effects::has_bits(allowed, ALLOW_COPY) {
            (DropEffect::Copy, None)
        } else if effects::has_bits(allowed, ALLOW_MOVE) {
            (DropEffect::Move, None)
        } else {
            (DropEffect::Nothing, Some("effect_not_offered"@))
        },
        Some(Place::QuickAccessPin) => (DropEffect::Nothing, Some("unsupported_data"@)),
        None => (DropEffect::Nothing, Some("target_unavailable"@)),
    }
}

pub fn incoming_copy_effect(target: Option<&DropTarget>, allowed: u32) -> (r: (
    DropEffect,
    Option<&'static str>,
))
    ensures
        (r.0, effects::reason_of(r.1)) == copied_at(
            match target {
                Some(target) => Some(target@),
                None => None,
            },
            allowed,
        ),
{
    match target {
        Some(DropTarget::Directory(_)) => if allowed & ALLOW_COPY != 0 {
            (DropEffect::Copy, None)
        } else if allowed & ALLOW_MOVE != 0 {
            (DropEffect::Move, None)
        } else {
            (DropEffect::Nothing, Some("effect_not_offered"))
        },
        Some(DropTarget::QuickAccessPin) => (DropEffect::Nothing, Some("unsupported_data")),
        None => (DropEffect::Nothing, Some("target_unavailable")),
    }
}

// ---- the state that is shown ----

#[derive(Debug, Clone, Copy, PartialEq, Eq, Structural)]
pub enum DragDropLifecycle {
    Unregistered,
    Registered,
    Dragging,
    Revoked,
}

impl DragDropLifecycle {
    pub fn name(self) -> (name: &'static str)
        ensures
            name@ == match self {
                DragDropLifecycle::Unregistered => "unregistered"@,
                DragDropLifecycle::Registered => "registered"@,
                DragDropLifecycle::Dragging => "dragging"@,
                DragDropLifecycle::Revoked => "revoked"@,
            },
    {
        match self {
            DragDropLifecycle::Unregistered => "unregistered",
            DragDropLifecycle::Registered => "registered",
            DragDropLifecycle::Dragging => "dragging",
            DragDropLifecycle::Revoked => "revoked",
        }
    }
}

#[derive(Debug, Clone, Copy, PartialEq, Eq, Structural)]
pub enum DragDropEvent {
    Registered,
    Entered,
    Moved,
    Left,
    Dropped,
    Revoked,
}

impl DragDropEvent {
    pub fn name(self) -> (name: &'static str)
        ensures
            name@ == match self {
                DragDropEvent::Registered => "registered"@,
                DragDropEvent::Entered => "entered"@,
                DragDropEvent::Moved => "moved"@,
                DragDropEvent::Left => "left"@,
                DragDropEvent::Dropped => "dropped"@,
                DragDropEvent::Revoked => "revoked"@,
            },
    {
        match self {
            DragDropEvent::Registered => "registered",
            DragDropEvent::Entered => "entered",
            DragDropEvent::Moved => "moved",
            DragDropEvent::Left => "left",
            DragDropEvent::Dropped => "dropped",
            DragDropEvent::Revoked => "revoked",
        }
    }
}

#[derive(Debug, Clone, PartialEq, Eq)]
pub struct DragDropState {
    pub lifecycle: DragDropLifecycle,
    pub registered: bool,
    pub source_count: usize,
    pub target: Option<String>,
    pub negotiated_effect: &'static str,
    pub rejection_reason: Option<&'static str>,
    pub last_event: Option<DragDropEvent>,
    pub event_sequence: u64,
    pub cursor_y: Option<i32>,
}

/// The shown state as a value.
pub struct Shown {
    pub lifecycle: DragDropLifecycle,
    pub registered: bool,
    pub source_count: int,
    pub target: Option<Seq<char>>,
    pub effect: Seq<char>,
    pub reason: Option<Seq<char>>,
    pub last_event: Option<DragDropEvent>,
    pub sequence: u64,
    pub cursor_y: Option<i32>,
}

impl View for DragDropState {
    type V = Shown;

    open spec fn view(&self) -> Shown {
        Shown {
            lifecycle: self.lifecycle,
            registered: self.registered,
            source_count: self.source_count as int,
            target: match self.target {
                Some(target) => Some(target@),
                None => None,
            },
            effect: self.negotiated_effect@,
            reason: effects::reason_of(self.rejection_reason),
            last_event: self.last_event,
            sequence: self.event_sequence,
            cursor_y: self.cursor_y,
        }
    }
}

pub open spec fn initially_shown() -> Shown {
    Shown {
        lifecycle: DragDropLifecycle::Unregistered,
        registered: false,
        source_count: 0,
        target: None,
        effect: "none"@,
        reason: Some("not_registered"@),
        last_event: None,
        sequence: 0,
        cursor_y: None,
    }
}

/// The state after an event, before what the event was about is filled in.
pub open spec fn recorded(s: Shown, event: DragDropEvent) -> Shown {
    let s = Shown {
        sequence: if s.sequence == u64::MAX {
            u64::MAX
        } else {
            (s.sequence + 1) as u64
        },
        last_event: Some(event),
        ..s
    };
    match event {
        DragDropEvent::Registered => Shown {
            lifecycle: DragDropLifecycle::Registered,
            registered: true,
            reason: None,
            ..s
        },
        DragDropEvent::Entered | DragDropEvent::Moved => Shown {
            lifecycle: DragDropLifecycle::Dragging,
            ..s
        },
        DragDropEvent::Left | DragDropEvent::Dropped => Shown {
            lifecycle: DragDropLifecycle::Registered,
            cursor_y: None,
            source_count: 0,
            target: None,
            effect: "none"@,
            reason: None,
            ..s
        },
        DragDropEvent::Revoked => Shown {
            lifecycle: DragDropLifecycle::Revoked,
            registered: false,
            source_count: 0,
            target: None,
            effect: "none"@,
            reason: Some("registration_revoked"@),
            ..s
        },
    }
}

impl Default for DragDropState {
    fn default() -> (state: Self)
        ensures
            state@ == initially_shown(),
    {
        DragDropState {
            lifecycle: DragDropLifecycle::Unregistered,
            registered: false,
            source_count: 0,
            target: None,
            negotiated_effect: "none",
            rejection_reason: Some("not_registered"),
            last_event: None,
            event_sequence: 0,
            cursor_y: None,
        }
    }
}

impl DragDropState {
    pub fn record(&mut self, event: DragDropEvent)
        ensures
            final(self)@ == recorded(old(self)@, event),
    {
        self.event_sequence = self.event_sequence.saturating_add(1);
        self.last_event = Some(event);
        match event {
            DragDropEvent::Registered => {
                self.lifecycle = DragDropLifecycle::Registered;
                self.registered = true;
                self.rejection_reason = None;
            },
            DragDropEvent::Entered | DragDropEvent::Moved => {
                self.lifecycle = DragDropLifecycle::Dragging;
            },
            DragDropEvent::Left | DragDropEvent::Dropped => {
                self.lifecycle = DragDropLifecycle::Registered;
                self.cursor_y = None;
                self.source_count = 0;
                self.target = None;
                self.negotiated_effect = "none";
                self.rejection_reason = None;
            },
            DragDropEvent::Revoked => {
                self.lifecycle = DragDropLifecycle::Revoked;
                self.registered = false;
                self.source_count = 0;
                self.target = None;
                self.negotiated_effect = "none";
                self.rejection_reason = Some("registration_revoked");
            },
        }
    }
}

/// The text under which a target is shown.
pub open spec fn place_text(place: Place) -> Seq<char> {
    match place {
        Place::Directory(path) => text::utf16_lossy(path),
        Place::QuickAccessPin => "quick_access_pin"@,
    }
}

/// The state after an event with what it was about.
pub open spec fn updated(
    s: Shown,
    event: DragDropEvent,
    count: int,
    place: Option<Place>,
    effect: DropEffect,
    reason: Option<Seq<char>>,
    cursor_y: Option<i32>,
) -> Shown {
    Shown {
        source_count: count,
        target: match place {
            Some(place) => Some(place_text(place)),
            None => None,
        },
        effect: effects::effect_name(effect),
        reason,
        cursor_y,
        ..recorded(s, event)
    }
}

// ---- a gesture over the window ----

/// What kind of data is dragged.
#[derive(Debug, Clone, Copy, PartialEq, Eq, Structural)]
pub enum IncomingKind {
    /// Files that stay where they are until the drop is carried out.
    Files,
    /// Files below the temporary directory, which may vanish as soon as the drop returns.
    Ephemeral,
    /// Files that exist only as streams until the drop returns.
    Virtual,
}

#[derive(Debug)]
pub struct DragContext {
    pub paths: Vec<Vec<u16>>,
    pub allowed_effects: u32,
    pub right_button: bool,
    pub incoming: IncomingKind,
}

/// What is being dragged, as a value.
pub struct Dragged {
    pub paths: Seq<Seq<u16>>,
    pub allowed: u32,
    pub right_button: bool,
    pub incoming: IncomingKind,
}

impl View for DragContext {
    type V = Dragged;

    open spec fn view(&self) -> Dragged {
        Dragged {
            paths: winpath::path_views(self.paths@),
            allowed: self.allowed_effects,
            right_button: self.right_button,
            incoming: self.incoming,
        }
    }
}

/// A drop to be carried out.
#[derive(Debug, Clone, PartialEq, Eq)]
pub struct DropIntent {
    pub paths: Vec<Vec<u16>>,
    pub target: DropTarget,
    pub effect: DropEffect,
    pub right_button: bool,
    pub screen_x: i32,
    pub screen_y: i32,
    pub allowed_effects: u32,
    /// Scratch directory that belongs to the drop and is deleted once it has been carried out.
    pub staging_root: Option<Vec<u16>>,
}

/// A drop to be carried out, as a value.
pub struct Intent {
    pub paths: Seq<Seq<u16>>,
    pub target: Place,
    pub effect: DropEffect,
    pub right_button: bool,
    pub x: i32,
    pub y: i32,
    pub allowed: u32,
    pub staging_root: Option<Seq<u16>>,
}

impl View for DropIntent {
    type V = Intent;

    open spec fn view(&self) -> Intent {
        Intent {
            paths: winpath::path_views(self.paths@),
            target: self.target@,
            effect: self.effect,
            right_button: self.right_button,
            x: self.screen_x,
            y: self.screen_y,
            allowed: self.allowed_effects,
            staging_root: match self.staging_root {
                Some(root) => Some(root@),
                None => None,
            },
        }
    }
}

pub open spec fn intent_of(intent: Option<DropIntent>) -> Option<Intent> {
    match intent {
        Some(intent) => Some(intent@),
        None => None,
    }
}

/// A window and the drag that is over it.
#[derive(Debug)]
pub struct DropGesture {
    pub state: DragDropState,
    pub context: Option<DragContext>,
    pub tab_context: Option<TabDragPayload>,
}

/// A window and the drag that is over it, as a value.
pub struct Gesture {
    pub shown: Shown,
    pub dragged: Option<Dragged>,
    pub tab: Option<TabDragPayload>,
}

impl View for DropGesture {
    type V = Gesture;

    open spec fn view(&self) -> Gesture {
        Gesture {
            shown: self.state@,
            dragged: match self.context {
                Some(context) => Some(context@),
                None => None,
            },
            tab: self.tab_context,
        }
    }
}

/// What was found in the data of a drag that enters the window.
#[derive(Debug)]
pub enum EnteringData {
    /// A tab of this program.
    Tab(TabDragPayload),
    /// Files that exist only as streams, by their names.
    Virtual(Vec<Vec<u16>>),
    /// Files by their paths; none where there is no data.
    Paths(Vec<Vec<u16>>),
    /// Data that could not be read.
    Unreadable,
}

pub open spec fn entering_kind(data: EnteringData, temp: Seq<u16>) -> IncomingKind {
    match data {
        EnteringData::Virtual(_) => IncomingKind::Virtual,
        EnteringData::Paths(paths) => if staging::all_ephemeral(
            winpath::path_views(paths@),
            temp,
        ) {
            IncomingKind::Ephemeral
        } else {
            IncomingKind::Files
        },
        _ => IncomingKind::Files,
    }
}

/// What the drag would do where it is.
pub open spec fn hovering(
    paths: Seq<Seq<u16>>,
    incoming: IncomingKind,
    allowed: u32,
    place: Option<Place>,
    keys: u32,
) -> (DropEffect, Option<Seq<char>>) {
    if incoming == IncomingKind::Files {
        negotiated_at(paths, place, keys)
    } else {
        copied_at(place, allowed)
    }
}

/// The gesture after files have entered the window.
pub open spec fn files_entered(
    g: Gesture,
    paths: Seq<Seq<u16>>,
    incoming: IncomingKind,
    offered: u32,
    keys: u32,
    p: ScreenPoint,
    place: Option<Place>,
) -> Gesture {
    let allowed = offered & 7;
    let (effect, reason) = hovering(paths, incoming, allowed, place, keys);
    Gesture {
        shown: updated(
            g.shown,
            DragDropEvent::Entered,
            paths.len() as int,
            place,
            effect,
            reason,
            Some(p.y),
        ),
        dragged: if paths.len() > 0 {
            Some(
                Dragged {
                    paths,
                    allowed,
                    right_button: effects::has_bits(keys, MK_RBUTTON),
                    incoming,
                },
            )
        } else {
            None
        },
        tab: None,
    }
}

/// The gesture and the effect to report after a drag has entered; no effect is reported for data
/// that cannot be read.
pub open spec fn entered(
    g: Gesture,
    data: EnteringData,
    temp: Seq<u16>,
    offered: u32,
    keys: u32,
    p: ScreenPoint,
    place: Option<Place>,
) -> (Gesture, Option<DropEffect>) {
    match data {
        EnteringData::Tab(payload) => (
            Gesture { dragged: None, tab: Some(payload), ..g },
            Some(DropEffect::Move),
        ),
        EnteringData::Unreadable => (Gesture { dragged: None, tab: None, ..g }, None),
        EnteringData::Virtual(paths) | EnteringData::Paths(paths) => {
            let views = winpath::path_views(paths@);
            let incoming = entering_kind(data, temp);
            (
                files_entered(g, views, incoming, offered, keys, p, place),
                Some(hovering(views, incoming, offered & 7, place, keys).0),
            )
        },
    }
}

/// The gesture and the effect to report while the drag moves over the window.
pub open spec fn moved(g: Gesture, keys: u32, p: ScreenPoint, place: Option<Place>) -> (
    Gesture,
    DropEffect,
) {
    if g.tab is Some {
        (g, DropEffect::Move)
    } else {
        match g.dragged {
            None => (g, DropEffect::Nothing),
            Some(d) => {
                let (effect, reason) = hovering(d.paths, d.incoming, d.allowed, place, keys);
                (
                    Gesture {
                        shown: updated(
                            g.shown,
                            DragDropEvent::Moved,
                            d.paths.len() as int,
                            place,
                            effect,
                            reason,
                            Some(p.y),
                        ),
                        dragged: Some(
                            Dragged {
                                right_button: d.right_button || effects::has_bits(keys, MK_RBUTTON),
                                ..d
                            },
                        ),
                        ..g
                    },
                    effect,
                )
            },
        }
    }
}

/// The gesture after the drag has left the window.
pub open spec fn left(g: Gesture) -> Gesture {
    if g.tab is Some {
        Gesture { dragged: None, tab: None, ..g }
    } else {
        Gesture {
            shown: updated(
                g.shown,
                DragDropEvent::Left,
                0,
                None,
                DropEffect::Nothing,
                None,
                None,
            ),
            dragged: None,
            tab: None,
        }
    }
}

/// The shown state after a drop was turned away before its target was looked at.
pub open spec fn rejected(s: Shown, reason: Seq<char>) -> Shown {
    updated(s, DragDropEvent::Dropped, 0, None, DropEffect::Nothing, Some(reason), None)
}

/// What a drop goes on with: each gesture can be taken up once.
#[derive(Debug)]
pub enum DropPlan {
    /// A tab was dropped.
    Tab(TabDragPayload),
    /// Nothing is being dragged; the drop has been turned away.
    NothingDragged,
    /// Data is dropped; how it goes on depends on its kind.
    Data(DragContext),
}

pub open spec fn taken_up(g: Gesture) -> Gesture {
    if g.tab is Some {
        Gesture { tab: None, ..g }
    } else if g.dragged is Some {
        Gesture { dragged: None, ..g }
    } else {
        Gesture { shown: rejected(g.shown, "no_active_file_drag"@), ..g }
    }
}

pub open spec fn planned(g: Gesture, plan: DropPlan) -> bool {
    match plan {
        DropPlan::Tab(payload) => g.tab == Some(payload),
        DropPlan::NothingDragged => g.tab is None && g.dragged is None,
        DropPlan::Data(context) => g.tab is None && g.dragged == Some(context@),
    }
}

/// How a drop ended: the effect to report and what is to be carried out.
#[derive(Debug)]
pub struct DropOutcome {
    pub effect: DropEffect,
    pub intent: Option<DropIntent>,
}

/// The shown state, the effect and the drop to be carried out when files are dropped.
pub open spec fn files_dropped(
    s: Shown,
    d: Dragged,
    received: Option<Seq<Seq<u16>>>,
    keys: u32,
    p: ScreenPoint,
    place: Option<Place>,
) -> (Shown, DropEffect, Option<Intent>) {
    match received {
        None => (rejected(s, "unreadable_drop_data"@), DropEffect::Nothing, None),
        Some(received) => if !winpath::same_paths(received, d.paths) {
            (rejected(s, "source_paths_changed"@), DropEffect::Nothing, None)
        } else {
            let held = if d.right_button {
                keys | MK_RBUTTON
            } else {
                keys
            };
            let (effect, reason) = negotiated_at(d.paths, place, held);
            if place matches Some(Place::Directory(_)) && effect != DropEffect::Nothing && d.allowed
                & (effects::native_effect(effect) & 7) == 0 {
                (rejected(s, "effect_not_offered"@), DropEffect::Nothing, None)
            } else {
                (
                    updated(
                        s,
                        DragDropEvent::Dropped,
                        d.paths.len() as int,
                        place,
                        effect,
                        reason,
                        Some(p.y),
                    ),
                    effect,
                    if place is Some && reason is None {
                        Some(
                            Intent {
                                paths: d.paths,
                                target: place->0,
                                effect,
                                right_button: d.right_button,
                                x: p.x,
                                y: p.y,
                                allowed: match place->0 {
                                    Place::Directory(path) => effects::effects_at(
                                        d.paths,
                                        path,
                                        d.allowed,
                                    ),
                                    Place::QuickAccessPin => ALLOW_LINK,
                                },
                                staging_root: None,
                            },
                        )
                    } else {
                        None
                    },
                )
            }
        },
    }
}

/// Files copied aside for a drop.
#[derive(Debug)]
pub struct StagedDrop {
    pub root: Vec<u16>,
    pub paths: Vec<Vec<u16>>,
}

/// The shown state, the effect and the drop to be carried out when data was copied aside for a
/// directory; without the copies the drop is turned away.
pub open spec fn staged_dropped(
    s: Shown,
    d: Dragged,
    staged: Option<(Seq<u16>, Seq<Seq<u16>>)>,
    shown_effect: DropEffect,
    directory: Seq<u16>,
    p: ScreenPoint,
) -> (Shown, DropEffect, Option<Intent>) {
    match staged {
        None => (rejected(s, "unreadable_drop_data"@), DropEffect::Nothing, None),
        Some((root, paths)) => (
            updated(
                s,
                DragDropEvent::Dropped,
                paths.len() as int,
                Some(Place::Directory(directory)),
                DropEffect::Copy,
                None,
                Some(p.y),
            ),
            shown_effect,
            Some(
                Intent {
                    paths,
                    target: Place::Directory(directory),
                    effect: DropEffect::Copy,
                    right_button: d.right_button,
                    x: p.x,
                    y: p.y,
                    allowed: effects::effects_at(paths, directory, d.allowed) & (ALLOW_COPY
                        | ALLOW_MOVE),
                    staging_root: Some(root),
                },
            ),
        ),
    }
}

fn target_text(target: &DropTarget) -> (shown: String)
    ensures
        shown@ == place_text(target@),
{
    match target {
        DropTarget::Directory(path) => {
            let chars = decode_lossy(path.as_slice());
            string_from_chars(chars.as_slice())
        },
        DropTarget::QuickAccessPin => "quick_access_pin".to_string(),
    }
}

impl DropGesture {
    pub fn new() -> (gesture: Self)
        ensures
            gesture@ == (Gesture { shown: initially_shown(), dragged: None, tab: None }),
    {
        DropGesture { state: DragDropState::default(), context: None, tab_context: None }
    }

    fn update(
        &mut self,
        event: DragDropEvent,
        count: usize,
        target: Option<&DropTarget>,
        effect: DropEffect,
        reason: Option<&'static str>,
        cursor_y: Option<i32>,
    )
        ensures
            final(self)@ == (Gesture {
                shown: updated(
                    old(self)@.shown,
                    event,
                    count as int,
                    match target {
                        Some(target) => Some(target@),
                        None => None,
                    },
                    effect,
                    effects::reason_of(reason),
                    cursor_y,
                ),
                ..old(self)@
            }),
    {
        self.state.record(event);
        self.state.source_count = count;
        self.state.target = match target {
            Some(target) => Some(target_text(target)),
            None => None,
        };
        self.state.negotiated_effect = effect.name();
        self.state.rejection_reason = reason;
        self.state.cursor_y = cursor_y;
    }

    fn reject_drop(&mut self, reason: &'static str)
        ensures
            final(self)@ == (Gesture {
                shown: rejected(old(self)@.shown, reason@),
                ..old(self)@
            }),
    {
        self.update(
            DragDropEvent::Dropped,
            0,
            None,
            DropEffect::Nothing,
            Some(reason),
            None,
        );
    }

    fn enter_files(
        &mut self,
        paths: Vec<Vec<u16>>,
        incoming: IncomingKind,
        offered: u32,
        key_state: u32,
        point: ScreenPoint,
        target: Option<DropTarget>,
    ) -> (effect: DropEffect)
        ensures
            final(self)@ == files_entered(
                old(self)@,
                winpath::path_views(paths@),
                incoming,
                offered,
                key_state,
                point,
                place_of(target),
            ),
            effect == hovering(
                winpath::path_views(paths@),
                incoming,
                offered & 7,
                place_of(target),
                key_state,
            ).0,
    {
        let allowed: u32 = allowed_effects(offered);
        let (effect, reason) = match incoming {
            IncomingKind::Files => negotiate_target_effect(
                paths.as_slice(),
                target.as_ref(),
                key_state,
            ),
            _ => incoming_copy_effect(target.as_ref(), allowed),
        };
        let count: usize = paths.len();
        self.tab_context = None;
        self.context = if count > 0 {
            Some(
                DragContext {
                    paths,
                    allowed_effects: allowed,
                    right_button: key_state & MK_RBUTTON != 0,
                    incoming,
                },
            )
        } else {
            None
        };
        self.update(
            DragDropEvent::Entered,
            count,
            target.as_ref(),
            effect,
            reason,
            Some(point.y),
        );
        effect
    }

    /// A drag enters the window. It starts a new gesture, whatever came before and even where its
    /// data cannot be read.
    pub fn drag_enter(
        &mut self,
        data: EnteringData,
        temp: &[u16],
        offered: u32,
        key_state: u32,
        point: ScreenPoint,
        snapshot: &DropTargetSnapshot,
    ) -> (effect: Option<DropEffect>)
        ensures
            (final(self)@, effect) == entered(
                old(self)@,
                data,
                temp@,
                offered,
                key_state,
                point,
                place_at(*snapshot, point),
            ),
    {
        match data {
            EnteringData::Tab(payload) => {
                self.context = None;
                self.tab_context = Some(payload);
                Some(DropEffect::Move)
            },
            EnteringData::Unreadable => {
                self.context = None;
                self.tab_context = None;
                None
            },
            EnteringData::Virtual(paths) => {
                let target = snapshot.target_at(point);
                Some(
                    self.enter_files(
                        paths,
                        IncomingKind::Virtual,
                        offered,
                        key_state,
                        point,
                        target,
                    ),
                )
            },
            EnteringData::Paths(paths) => {
                let target = snapshot.target_at(point);
                let incoming = if is_ephemeral_drop(paths.as_slice(), temp) {
                    IncomingKind::Ephemeral
                } else {
                    IncomingKind::Files
                };
                Some(self.enter_files(paths, incoming, offered, key_state, point, target))
            },
        }
    }

    /// The drag moves over the window.
    pub fn drag_over(&mut self, key_state: u32, point: ScreenPoint, snapshot: &DropTargetSnapshot) -> (effect: DropEffect)
        ensures
            (final(self)@, effect) == moved(
                old(self)@,
                key_state,
                point,
                place_at(*snapshot, point),
            ),
    {
        if self.tab_context.is_some() {
            return DropEffect::Move;
        }
        match self.context.take() {
            None => DropEffect::Nothing,
            Some(context) => {
                let target = snapshot.target_at(point);
                let (effect, reason) = match context.incoming {
                    IncomingKind::Files => negotiate_target_effect(
                        context.paths.as_slice(),
                        target.as_ref(),
                        key_state,
                    ),
                    _ => incoming_copy_effect(target.as_ref(), context.allowed_effects),
                };
                let count: usize = context.paths.len();
                let right_button = context.right_button || key_state & MK_RBUTTON != 0;
                self.context = Some(DragContext { right_button, ..context });
                self.update(
                    DragDropEvent::Moved,
                    count,
                    target.as_ref(),
                    effect,
                    reason,
                    Some(point.y),
                );
                effect
            },
        }
    }

    /// The drag leaves the window; true when it was a tab.
    pub fn drag_leave(&mut self) -> (tab: bool)
        ensures
            final(self)@ == left(old(self)@),
            tab == (old(self)@.tab is Some),
    {
        self.context = None;
        if self.tab_context.is_some() {
            self.tab_context = None;
            return true;
        }
        self.update(DragDropEvent::Left, 0, None, DropEffect::Nothing, None, None);
        false
    }

    /// A drop takes up the gesture; it is gone for any later drop, however this one ends.
    pub fn begin_drop(&mut self) -> (plan: DropPlan)
        ensures
            final(self)@ == taken_up(old(self)@),
            planned(old(self)@, plan),
    {
        if let Some(payload) = self.tab_context.take() {
            return DropPlan::Tab(payload);
        }
        match self.context.take() {
            Some(context) => DropPlan::Data(context),
            None => {
                self.reject_drop("no_active_file_drag");
                DropPlan::NothingDragged
            },
        }
    }

    /// Ends the drop of files that stay where they are. `received` are the paths that the dropped
    /// data holds now, or nothing when it cannot be read.
    pub fn finish_file_drop(
        &mut self,
        context: DragContext,
        received: Option<Vec<Vec<u16>>>,
        key_state: u32,
        point: ScreenPoint,
        snapshot: &DropTargetSnapshot,
    ) -> (outcome: DropOutcome)
        ensures
            ({
                let (shown, effect, intent) = files_dropped(
                    old(self)@.shown,
                    context@,
                    match received {
                        Some(paths) => Some(winpath::path_views(paths@)),
                        None => None,
                    },
                    key_state,
                    point,
                    place_at(*snapshot, point),
                );
                &&& final(self)@ == Gesture { shown, ..old(self)@ }
                &&& outcome.effect == effect
                &&& intent_of(outcome.intent) == intent
            }),
    {
        let received = match received {
            Some(received) => received,
            None => {
                self.reject_drop("unreadable_drop_data");
                return DropOutcome { effect: DropEffect::Nothing, intent: None };
            },
        };
        if !path_lists_eq(received.as_slice(), context.paths.as_slice()) {
            self.reject_drop("source_paths_changed");
            return DropOutcome { effect: DropEffect::Nothing, intent: None };
        }
        let target = snapshot.target_at(point);
        let held: u32 = drop_key_state(key_state, context.right_button);
        let (effect, reason) = negotiate_target_effect(
            context.paths.as_slice(),
            target.as_ref(),
            held,
        );
        let on_directory = match &target {
            Some(DropTarget::Directory(_)) => true,
            _ => false,
        };
        if on_directory && effect != DropEffect::Nothing && context.allowed_effects
            & allowed_effects(effect.native()) == 0 {
            self.reject_drop("effect_not_offered");
            return DropOutcome { effect: DropEffect::Nothing, intent: None };
        }
        self.update(
            DragDropEvent::Dropped,
            context.paths.len(),
            target.as_ref(),
            effect,
            reason,
            Some(point.y),
        );
        if reason.is_some() {
            return DropOutcome { effect, intent: None };
        }
        match target {
            None => DropOutcome { effect, intent: None },
            Some(target) => {
                let allowed: u32 = match &target {
                    DropTarget::Directory(path) => allowed_effects_for_target(
                        context.paths.as_slice(),
                        path.as_slice(),
                        context.allowed_effects,
                    ),
                    DropTarget::QuickAccessPin => ALLOW_LINK,
                };
                DropOutcome {
                    effect,
                    intent: Some(
                        DropIntent {
                            paths: context.paths,
                            target,
                            effect,
                            right_button: context.right_button,
                            screen_x: point.x,
                            screen_y: point.y,
                            allowed_effects: allowed,
                            staging_root: None,
                        },
                    ),
                }
            },
        }
    }

    /// Where data that has to be copied first would go: the effect to report and the directory.
    /// Without one the drop is turned away.
    pub fn staged_copy_target(
        &mut self,
        context: &DragContext,
        point: ScreenPoint,
        snapshot: &DropTargetSnapshot,
    ) -> (destination: Option<(DropEffect, Vec<u16>)>)
        ensures
            ({
                let place = place_at(*snapshot, point);
                let (effect, reason) = copied_at(place, context@.allowed);
                match reason {
                    None => {
                        &&& destination matches Some((shown, directory)) && shown == effect && place
                            == Some(Place::Directory(directory@))
                        &&& final(self)@ == old(self)@
                    },
                    Some(reason) => {
                        &&& destination is None
                        &&& final(self)@ == Gesture {
                            shown: updated(
                                old(self)@.shown,
                                DragDropEvent::Dropped,
                                context@.paths.len() as int,
                                None,
                                DropEffect::Nothing,
                                Some(reason),
                                Some(point.y),
                            ),
                            ..old(self)@
                        }
                    },
                }
            }),
    {
        let target = snapshot.target_at(point);
        let (shown, reason) = incoming_copy_effect(target.as_ref(), context.allowed_effects);
        if reason.is_none() {
            match target {
                Some(DropTarget::Directory(directory)) => {
                    return Some((shown, directory));
                },
                _ => {},
            }
        }
        self.update(
            DragDropEvent::Dropped,
            context.paths.len(),
            None,
            DropEffect::Nothing,
            reason,
            Some(point.y),
        );
        None
    }

    /// The files to be copied aside for a drop of temporary files: those that the data holds now,
    /// or those that entered. When they are no longer temporary the drop is turned away.
    pub fn ephemeral_sources(
        &mut self,
        context: &DragContext,
        reread: Option<Vec<Vec<u16>>>,
        temp: &[u16],
    ) -> (sources: Option<Vec<Vec<u16>>>)
        ensures
            ({
                let found = match reread {
                    Some(paths) => if paths@.len() > 0 {
                        winpath::path_views(paths@)
                    } else {
                        context@.paths
                    },
                    None => context@.paths,
                };
                if staging::all_ephemeral(found, temp@) {
                    &&& sources matches Some(sources) && winpath::path_views(sources@) == found
                    &&& final(self)@ == old(self)@
                } else {
                    &&& sources is None
                    &&& final(self)@ == Gesture {
                        shown: rejected(old(self)@.shown, "source_paths_changed"@),
                        ..old(self)@
                    }
                }
            }),
    {
        let sources = match reread {
            Some(paths) => if paths.len() > 0 {
                paths
            } else {
                copy_paths(context.paths.as_slice())
            },
            None => copy_paths(context.paths.as_slice()),
        };
        if !is_ephemeral_drop(sources.as_slice(), temp) {
            self.reject_drop("source_paths_changed");
            return None;
        }
        Some(sources)
    }

    /// Ends the drop of data that was copied aside; `staged` is nothing when that failed.
    pub fn finish_staged_drop(
        &mut self,
        context: &DragContext,
        staged: Option<StagedDrop>,
        shown: DropEffect,
        directory: Vec<u16>,
        point: ScreenPoint,
    ) -> (outcome: DropOutcome)
        ensures
            ({
                let (state, effect, intent) = staged_dropped(
                    old(self)@.shown,
                    context@,
                    match staged {
                        Some(staged) => Some((staged.root@, winpath::path_views(staged.paths@))),
                        None => None,
                    },
                    shown,
                    directory@,
                    point,
                );
                &&& final(self)@ == Gesture { shown: state, ..old(self)@ }
                &&& outcome.effect == effect
                &&& intent_of(outcome.intent) == intent
            }),
    {
        match staged {
            None => {
                self.reject_drop("unreadable_drop_data");
                DropOutcome { effect: DropEffect::Nothing, intent: None }
            },
            Some(staged) => {
                let allowed: u32 = allowed_effects_for_target(
                    staged.paths.as_slice(),
                    directory.as_slice(),
                    context.allowed_effects,
                ) & (ALLOW_COPY | ALLOW_MOVE);
                let target = DropTarget::Directory(directory);
                self.update(
                    DragDropEvent::Dropped,
                    staged.paths.len(),
                    Some(&target),
                    DropEffect::Copy,
                    None,
                    Some(point.y),
                );
                DropOutcome {
                    effect: shown,
                    intent: Some(
                        DropIntent {
                            paths: staged.paths,
                            target,
                            effect: DropEffect::Copy,
                            right_button: context.right_button,
                            screen_x: point.x,
                            screen_y: point.y,
                            allowed_effects: allowed,
                            staging_root: Some(staged.root),
                        },
                    ),
                }
            },
        }
    }
}

// ---- laws ----

/// One gesture yields at most one drop: after a drop has taken it up, a second drop finds nothing.
pub proof fn law_gesture_is_taken_up_once(g: Gesture, plan: DropPlan, again: DropPlan)
    requires
        g.tab is None || g.dragged is None,
        planned(g, plan),
        planned(taken_up(g), again),
    ensures
        again is NothingDragged,
{
}

/// Without a drag that has entered and not left, nothing is dropped.
pub proof fn law_no_drop_without_entering(g: Gesture, keys: u32, p: ScreenPoint, place: Option<
    Place,
>, plan: DropPlan)
    requires
        g.tab is None && g.dragged is None,
        planned(moved(g, keys, p, place).0, plan),
    ensures
        plan is NothingDragged,
{
}

/// After the drag has left the window nothing is dropped.
pub proof fn law_no_drop_after_leaving(g: Gesture, plan: DropPlan)
    requires
        planned(left(g), plan),
    ensures
        plan is NothingDragged,
{
}

/// Files are dropped on a directory only with an effect that their source offered when it entered.
pub proof fn law_drop_stays_within_the_offer(
    s: Shown,
    d: Dragged,
    received: Option<Seq<Seq<u16>>>,
    keys: u32,
    p: ScreenPoint,
    place: Option<Place>,
)
    requires
        place matches Some(Place::Directory(_)),
    ensures
        files_dropped(s, d, received, keys, p, place).2 matches Some(intent) ==> d.allowed & (
        effects::native_effect(intent.effect) & 7) != 0 && intent.allowed & !d.allowed == 0,
{
    match place {
        Some(Place::Directory(path)) => {
            effects::law_effects_are_only_taken_away(d.paths, path, d.allowed);
        },
        _ => {},
    }
}

/// Files are dropped only when the dropped data names the very paths that entered.
pub proof fn law_drop_needs_the_same_sources(
    s: Shown,
    d: Dragged,
    received: Option<Seq<Seq<u16>>>,
    keys: u32,
    p: ScreenPoint,
    place: Option<Place>,
)
    ensures
        files_dropped(s, d, received, keys, p, place).2 matches Some(intent) ==> intent.paths
            == d.paths && received is Some && winpath::same_paths(received->0, d.paths),
{
}

/// A drop that was copied aside is always a copy, and is offered no link.
pub proof fn law_staged_drop_is_a_copy(
    s: Shown,
    d: Dragged,
    staged: Option<(Seq<u16>, Seq<Seq<u16>>)>,
    shown: DropEffect,
    directory: Seq<u16>,
    p: ScreenPoint,
)
    ensures
        staged_dropped(s, d, staged, shown, directory, p).2 matches Some(intent) ==> intent.effect
            == DropEffect::Copy && !effects::has_bits(intent.allowed, ALLOW_LINK),
{
    match staged {
        Some((_, paths)) => {
            let e = effects::effects_at(paths, directory, d.allowed);
            assert((e & (1u32 | 2u32)) & 4 == 0) by (bit_vector);
        },
        None => {},
    }
}

// ---- laws of the window ----

proof fn lemma_first_row(rows: Seq<FolderDropTarget>, from: int, p: ScreenPoint)
    requires
        0 <= from <= rows.len(),
    ensures
        match row_folder(rows, from, p) {
            Some(path) => exists|i: int|
                from <= i < rows.len() && row_holds(#[trigger] rows[i], p) && rows[i].path@ == path
                    && forall|j: int| from <= j < i ==> !row_holds(#[trigger] rows[j], p),
            None => forall|i: int| from <= i < rows.len() ==> !row_holds(#[trigger] rows[i], p),
        },
    decreases rows.len() - from,
{
    if from < rows.len() && !row_holds(rows[from], p) {
        lemma_first_row(rows, from + 1, p);
        if row_folder(rows, from + 1, p) is Some {
            let path = row_folder(rows, from + 1, p)->0;
            let i = choose|i: int|
                from + 1 <= i < rows.len() && row_holds(#[trigger] rows[i], p) && rows[i].path@
                    == path && forall|j: int|
                    from + 1 <= j < i ==> !row_holds(#[trigger] rows[j], p);
            assert(row_holds(rows[i], p));
        }
    }
}

/// What lies under the pointer is the target: the pin area where the pointer is in it, else the
/// folder of the first row that it is in, else the folder that the window shows.
pub proof fn law_the_target_is_under_the_pointer(
    snapshot: DropTargetSnapshot,
    p: ScreenPoint,
    target: Option<DropTarget>,
)
    requires
        call_ensures(DropTargetSnapshot::target_at, (&snapshot, p), target),
    ensures
        ({
            let on_pin = snapshot.quick_access_pin matches Some(rect) && rect.left <= p.x
                && p.x < rect.right && rect.top <= p.y && p.y < rect.bottom;
            let rows = snapshot.folder_rows@;
            let on_row = exists|i: int|
                0 <= i < rows.len() && (#[trigger] rows[i]).left <= p.x && p.x < rows[i].right
                    && rows[i].top <= p.y && p.y < rows[i].bottom;
            &&& target == Some(DropTarget::QuickAccessPin) <==> on_pin
            &&& !on_pin && on_row ==> (target matches Some(DropTarget::Directory(path)) && exists|
                i: int,
            |
                {
                    &&& 0 <= i < rows.len() && (#[trigger] rows[i]).left <= p.x && p.x
                        < rows[i].right && rows[i].top <= p.y && p.y < rows[i].bottom
                    &&& rows[i].path@ == path@
                    &&& forall|j: int|
                        0 <= j < i ==> !((#[trigger] rows[j]).left <= p.x && p.x < rows[j].right
                            && rows[j].top <= p.y && p.y < rows[j].bottom)
                })
            &&& !on_pin && !on_row ==> match snapshot.current {
                Some(path) => target matches Some(DropTarget::Directory(found)) && found@ == path@,
                None => target is None,
            }
        }),
{
    let rows = snapshot.folder_rows@;
    lemma_first_row(rows, 0, p);
    assert(place_of(target) == place_at(snapshot, p));
    if row_folder(rows, 0, p) is Some {
        let path = row_folder(rows, 0, p)->0;
        let i = choose|i: int|
            0 <= i < rows.len() && row_holds(#[trigger] rows[i], p) && rows[i].path@ == path
                && forall|j: int| 0 <= j < i ==> !row_holds(#[trigger] rows[j], p);
        assert(rows[i].left <= p.x);
        assert forall|j: int| 0 <= j < i implies !((#[trigger] rows[j]).left <= p.x && p.x
            < rows[j].right && rows[j].top <= p.y && p.y < rows[j].bottom) by {
            assert(!row_holds(rows[j], p));
        }
    } else {
        assert forall|j: int| 0 <= j < rows.len() implies !((#[trigger] rows[j]).left <= p.x && p.x
            < rows[j].right && rows[j].top <= p.y && p.y < rows[j].bottom) by {
            assert(!row_holds(rows[j], p));
        }
    }
}

/// One folder can be pinned, and is linked for that; a drop on a folder does what a drop there
/// does.
pub proof fn law_pinning_takes_one_folder(
    paths: &[Vec<u16>],
    target: Option<&DropTarget>,
    keys: u32,
    r: (DropEffect, Option<&'static str>),
    directory: Option<&[u16]>,
    at_directory: (DropEffect, Option<&'static str>),
)
    requires
        call_ensures(negotiate_target_effect, (paths, target, keys), r),
        match (target, directory) {
            (Some(DropTarget::Directory(path)), Some(same)) => path@ == same@,
            (None, None) => true,
            (Some(DropTarget::QuickAccessPin), _) => true,
            _ => false,
        },
        call_ensures(effects::negotiate_effect, (paths, directory, keys), at_directory),
    ensures
        target matches Some(DropTarget::QuickAccessPin) ==> (r.0 == DropEffect::Link <==>
            paths@.len() == 1) && (r.0 == DropEffect::Nothing <==> paths@.len() != 1) && (r.1
            is Some <==> paths@.len() != 1),
        !(target matches Some(DropTarget::QuickAccessPin)) ==> r.0 == at_directory.0 && (r.1 is Some
            <==> at_directory.1 is Some),
{
}

/// Data that has to be copied first is copied into a folder, or moved where only that is offered,
/// and goes nowhere else.
pub proof fn law_incoming_data_goes_into_folders(
    target: Option<&DropTarget>,
    allowed: u32,
    r: (DropEffect, Option<&'static str>),
)
    requires
        call_ensures(incoming_copy_effect, (target, allowed), r),
    ensures
        ({
            let folder = target matches Some(DropTarget::Directory(_));
            &&& r.0 == DropEffect::Copy <==> folder && allowed & 1 != 0
            &&& r.0 == DropEffect::Move <==> folder && allowed & 1 == 0 && allowed & 2 != 0
            &&& r.0 == DropEffect::Nothing <==> r.1 is Some
            &&& r.0 != DropEffect::Link
        }),
{
}

/// Files that enter are kept as they came, with what their source offers; what is reported is what
/// a drop at the pointer would do, and the state shows how many they are.
pub proof fn law_entering_files_are_remembered(
    gesture: &mut DropGesture,
    paths: Vec<Vec<u16>>,
    temp: &[u16],
    offered: u32,
    keys: u32,
    p: ScreenPoint,
    snapshot: DropTargetSnapshot,
    effect: Option<DropEffect>,
)
    requires
        paths@.len() > 0,
        call_ensures(
            DropGesture::drag_enter,
            (gesture, EnteringData::Paths(paths), temp, offered, keys, p, &snapshot),
            effect,
        ),
    ensures
        final(gesture).context matches Some(context) && {
            &&& context.paths@.len() == paths@.len()
            &&& forall|i: int|
                0 <= i < paths@.len() ==> (#[trigger] context.paths@[i])@ == paths@[i]@
            &&& context.allowed_effects == offered & 7
            &&& context.right_button <==> keys & 2 != 0
        },
        final(gesture).tab_context is None,
        final(gesture).state.source_count == paths@.len(),
        final(gesture).state.lifecycle == DragDropLifecycle::Dragging,
        final(gesture).state.last_event == Some(DragDropEvent::Entered),
        effect is Some,
{
    let context = final(gesture).context->0;
    assert(final(gesture)@.dragged == Some(context@));
    assert(context@.paths == winpath::path_views(paths@));
    assert(winpath::path_views(context.paths@).len() == context.paths@.len());
    assert(final(gesture)@.shown == final(gesture).state@);
    assert forall|i: int| 0 <= i < paths@.len() implies (#[trigger] context.paths@[i])@
        == paths@[i]@ by {
        assert(winpath::path_views(context.paths@)[i] == winpath::path_views(paths@)[i]);
    }
}

/// A tab that enters is moved; data that cannot be read starts nothing.
pub proof fn law_tabs_are_moved(
    gesture: &mut DropGesture,
    data: EnteringData,
    temp: &[u16],
    offered: u32,
    keys: u32,
    p: ScreenPoint,
    snapshot: DropTargetSnapshot,
    effect: Option<DropEffect>,
)
    requires
        call_ensures(
            DropGesture::drag_enter,
            (gesture, data, temp, offered, keys, p, &snapshot),
            effect,
        ),
    ensures
        data matches EnteringData::Tab(payload) ==> effect == Some(DropEffect::Move)
            && final(gesture).tab_context == Some(payload) && final(gesture).context is None,
        data is Unreadable ==> effect is None && final(gesture).tab_context is None
            && final(gesture).context is None,
        !(data is Tab) ==> final(gesture).tab_context is None,
{
}

/// While files are over the window, what is reported is what a drop at the pointer would do; they
/// stay what they were, and a right button that was held once is remembered.
pub proof fn law_moving_reports_the_drop(
    gesture: &mut DropGesture,
    keys: u32,
    p: ScreenPoint,
    snapshot: DropTargetSnapshot,
    effect: DropEffect,
    target: Option<DropTarget>,
    sources: &[Vec<u16>],
    at_target: (DropEffect, Option<&'static str>),
)
    requires
        old(gesture).tab_context is None,
        old(gesture).context matches Some(context) && context.incoming == IncomingKind::Files
            && sources@ == context.paths@,
        call_ensures(DropGesture::drag_over, (gesture, keys, p, &snapshot), effect),
        call_ensures(DropTargetSnapshot::target_at, (&snapshot, p), target),
        call_ensures(negotiate_target_effect, (sources, opt_ref(target), keys), at_target),
    ensures
        effect == at_target.0,
        final(gesture).context matches Some(context) && {
            let before = old(gesture).context->0;
            &&& context.allowed_effects == before.allowed_effects
            &&& context.incoming == before.incoming
            &&& context.right_button <==> before.right_button || keys & 2 != 0
            &&& context.paths@.len() == before.paths@.len()
            &&& forall|i: int|
                0 <= i < before.paths@.len() ==> (#[trigger] context.paths@[i])@
                    == before.paths@[i]@
        },
        final(gesture).state.last_event == Some(DragDropEvent::Moved),
{
    let before = old(gesture).context->0;
    assert(old(gesture)@.dragged == Some(before@));
    let context = final(gesture).context->0;
    assert(final(gesture)@.dragged == Some(context@));
    assert(final(gesture)@.shown == final(gesture).state@);
    assert(context@.paths == before@.paths);
    assert(winpath::path_views(context.paths@).len() == context.paths@.len());
    assert(winpath::path_views(before.paths@).len() == before.paths@.len());
    assert forall|i: int| 0 <= i < before.paths@.len() implies (#[trigger] context.paths@[i])@
        == before.paths@[i]@ by {
        assert(winpath::path_views(context.paths@)[i] == winpath::path_views(before.paths@)[i]);
    }
}

/// The target by reference, where there is one.
pub open spec fn opt_ref(target: Option<DropTarget>) -> Option<&'static DropTarget> {
    match target {
        Some(target) => Some(&target),
        None => None,
    }
}

/// A drop of files carries out what was shown: the files that entered, at the target under the
/// pointer, with the effect that a drop there has and the source offers, at the point where it
/// happened. Nothing is copied aside for it.
pub proof fn law_a_drop_does_what_was_shown(
    gesture: &mut DropGesture,
    context: DragContext,
    received: Option<Vec<Vec<u16>>>,
    keys: u32,
    p: ScreenPoint,
    snapshot: DropTargetSnapshot,
    outcome: DropOutcome,
    target: Option<DropTarget>,
    sources: &[Vec<u16>],
    held: u32,
    at_target: (DropEffect, Option<&'static str>),
)
    requires
        call_ensures(
            DropGesture::finish_file_drop,
            (gesture, context, received, keys, p, &snapshot),
            outcome,
        ),
        call_ensures(DropTargetSnapshot::target_at, (&snapshot, p), target),
        sources@ == context.paths@,
        call_ensures(drop_key_state, (keys, context.right_button), held),
        call_ensures(negotiate_target_effect, (sources, opt_ref(target), held), at_target),
    ensures
        outcome.effect == DropEffect::Nothing || outcome.effect == at_target.0,
        outcome.intent is Some ==> {
            let intent = outcome.intent->0;
            &&& received is Some
            &&& at_target.1 is None
            &&& outcome.effect == at_target.0
            &&& intent.effect == at_target.0
            &&& intent.paths@.len() == context.paths@.len()
            &&& forall|i: int|
                0 <= i < context.paths@.len() ==> (#[trigger] intent.paths@[i])@
                    == context.paths@[i]@
            &&& match (target, intent.target) {
                (Some(DropTarget::Directory(a)), DropTarget::Directory(b)) => a@ == b@,
                (Some(DropTarget::QuickAccessPin), DropTarget::QuickAccessPin) => true,
                _ => false,
            }
            &&& intent.right_button == context.right_button
            &&& intent.screen_x == p.x && intent.screen_y == p.y
            &&& intent.staging_root is None
        },
        received is None ==> outcome.intent is None && outcome.effect == DropEffect::Nothing,
        received is Some && at_target.1 is None && target is Some && context.allowed_effects == 7
            && winpath::same_paths(
            winpath::path_views(received->0@),
            winpath::path_views(context.paths@),
        ) ==> outcome.intent is Some,
{
    assert(7u32 & (1u32 & 7) != 0 && 7u32 & (2u32 & 7) != 0 && 7u32 & (4u32 & 7) != 0)
        by (bit_vector);
    if outcome.intent is Some {
        let intent = outcome.intent->0;
        let paths = context.paths@;
        assert(intent_of(outcome.intent) == Some(intent@));
        assert(intent@.paths == winpath::path_views(paths));
        assert(winpath::path_views(intent.paths@).len() == intent.paths@.len());
        assert forall|i: int| 0 <= i < paths.len() implies (#[trigger] intent.paths@[i])@
            == paths[i]@ by {
            assert(winpath::path_views(intent.paths@)[i] == winpath::path_views(paths)[i]);
        }
    }
}

/// A drop of data that was copied aside names the copies, the folder, and what is to be deleted
/// afterwards.
pub proof fn law_a_staged_drop_names_its_copies(
    gesture: &mut DropGesture,
    context: DragContext,
    staged: Option<StagedDrop>,
    shown: DropEffect,
    directory: Vec<u16>,
    p: ScreenPoint,
    outcome: DropOutcome,
)
    requires
        call_ensures(
            DropGesture::finish_staged_drop,
            (gesture, &context, staged, shown, directory, p),
            outcome,
        ),
    ensures
        outcome.intent is Some <==> staged is Some,
        staged is None ==> outcome.effect == DropEffect::Nothing,
        staged matches Some(copies) ==> {
            let intent = outcome.intent->0;
            &&& outcome.effect == shown
            &&& intent.effect == DropEffect::Copy
            &&& intent.target matches DropTarget::Directory(to) && to@ == directory@
            &&& intent.staging_root matches Some(root) && root@ == copies.root@
            &&& intent.paths@.len() == copies.paths@.len()
            &&& forall|i: int|
                0 <= i < copies.paths@.len() ==> (#[trigger] intent.paths@[i])@
                    == copies.paths@[i]@
        },
{
    if staged is Some {
        let copies = staged->0;
        let intent = outcome.intent->0;
        assert(intent_of(outcome.intent) == Some(intent@));
        assert(intent@.paths == winpath::path_views(copies.paths@));
        assert(winpath::path_views(intent.paths@).len() == intent.paths@.len());
        assert forall|i: int| 0 <= i < copies.paths@.len() implies (#[trigger] intent.paths@[i])@
            == copies.paths@[i]@ by {
            assert(winpath::path_views(intent.paths@)[i] == winpath::path_views(copies.paths@)[i]);
        }
    }
}

/// A drop takes up what is being dragged, and nothing is left of it; after leaving nothing is
/// dragged either.
pub proof fn law_a_drop_takes_what_is_dragged(gesture: &mut DropGesture, plan: DropPlan)
    requires
        call_ensures(DropGesture::begin_drop, (gesture,), plan),
    ensures
        old(gesture).tab_context matches Some(payload) ==> plan == DropPlan::Tab(payload)
            && final(gesture).tab_context is None,
        old(gesture).tab_context is None && old(gesture).context is None ==> plan is NothingDragged
            && final(gesture).state.rejection_reason is Some,
        old(gesture).tab_context is None && old(gesture).context is Some ==> final(gesture).context
            is None && (plan matches DropPlan::Data(context) && {
            let dragged = old(gesture).context->0;
            &&& context.allowed_effects == dragged.allowed_effects
            &&& context.right_button == dragged.right_button
            &&& context.incoming == dragged.incoming
            &&& winpath::path_views(context.paths@) == winpath::path_views(dragged.paths@)
        }),
{
    assert(final(gesture)@.shown == final(gesture).state@);
    if old(gesture).context is Some {
        assert(old(gesture)@.dragged == Some(old(gesture).context->0@));
    }
}

/// A drag that has left is over, and the call says whether it was a tab.
pub proof fn law_leaving_ends_the_drag(gesture: &mut DropGesture, tab: bool)
    requires
        call_ensures(DropGesture::drag_leave, (gesture,), tab),
    ensures
        tab <==> old(gesture).tab_context is Some,
        final(gesture).tab_context is None,
        final(gesture).context is None,
        !tab ==> final(gesture).state.source_count == 0 && final(gesture).state.target is None
            && final(gesture).state.lifecycle == DragDropLifecycle::Registered,
{
    assert(final(gesture)@.shown == final(gesture).state@);
}

/// The state follows the events: it counts them, names the last, and shows whether the window is
/// registered and whether something is over it.
pub proof fn law_the_state_follows_the_events(state: &mut DragDropState, event: DragDropEvent)
    requires
        call_ensures(DragDropState::record, (state, event), ()),
    ensures
        final(state).last_event == Some(event),
        old(state).event_sequence < u64::MAX ==> final(state).event_sequence == old(
            state,
        ).event_sequence + 1,
        final(state).registered <==> event == DragDropEvent::Registered || (event
            != DragDropEvent::Revoked && old(state).registered),
        final(state).lifecycle == DragDropLifecycle::Dragging <==> event == DragDropEvent::Entered
            || event == DragDropEvent::Moved,
        final(state).lifecycle == DragDropLifecycle::Revoked <==> event == DragDropEvent::Revoked,
        event == DragDropEvent::Left || event == DragDropEvent::Dropped ==> {
            final(state).source_count == 0 && final(state).target is None
        },
{
    assert(final(state)@.lifecycle == final(state).lifecycle);
    assert(final(state)@.registered == final(state).registered);
}

/// Copies of incoming data go to the folder under the pointer, copied where the source allows it and
/// else moved; anywhere else, and without either, they go nowhere.
pub proof fn law_incoming_copies_go_under_the_pointer(
    target: &mut DropGesture,
    context: DragContext,
    point: ScreenPoint,
    snapshot: DropTargetSnapshot,
    under: Option<DropTarget>,
    destination: Option<(DropEffect, Vec<u16>)>,
)
    requires
        call_ensures(DropTargetSnapshot::target_at, (&snapshot, point), under),
        call_ensures(
            DropGesture::staged_copy_target,
            (target, &context, point, &snapshot),
            destination,
        ),
    ensures
        destination is Some <==> under is Some && under->0 is Directory && (context@.allowed & 1 != 0
            || context@.allowed & 2 != 0),
        destination is Some ==> (destination->0).1@ == under->0->Directory_0@ && ((destination->0).0
            == DropEffect::Copy <==> context@.allowed & 1 != 0) && ((destination->0).0
            == DropEffect::Move <==> context@.allowed & 1 == 0),
{
    assert(place_of(under) == place_at(snapshot, point));
}

} // verus!
