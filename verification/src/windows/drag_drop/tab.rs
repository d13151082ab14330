//! Dragging a tab: its payload, where it hovers and drops, and the picture under the pointer.
use vstd::prelude::*;

use crate::bytes;
use crate::bytes::{push_u32, push_u64, read_u32, read_u64};

verus! {

/// The bytes that open a tab payload, `ASTFTAB1`.
pub const TAB_DRAG_MAGIC: [u8; 8] = [0x41, 0x53, 0x54, 0x46, 0x54, 0x41, 0x42, 0x31];

#[derive(Debug, Clone, Copy, PartialEq, Eq, Structural)]
pub struct TabDragPayload {
    pub process_id: u32,
    pub source_hwnd: i64,
    pub tab_id: u32,
}

#[derive(Debug, Clone, Copy, PartialEq, Eq, Structural)]
pub struct TabDropPoint {
    pub target_hwnd: i64,
    pub screen_x: i32,
    pub screen_y: i32,
}

#[derive(Debug, Clone, Copy, PartialEq, Eq, Structural)]
pub struct TabDragResult {
    pub dropped: Option<TabDropPoint>,
    pub released_outside: bool,
}

#[derive(Debug, Clone, Copy, PartialEq, Eq, Structural)]
pub enum TabTargetEvent {
    Hover { screen_x: i32, screen_y: i32 },
    Leave,
    Drop { screen_x: i32, screen_y: i32 },
}

pub open spec fn magic_bytes() -> Seq<u8> {
    seq![0x41u8, 0x53, 0x54, 0x46, 0x54, 0x41, 0x42, 0x31]
}

/// A window handle in two's complement.
pub open spec fn handle_bits(hwnd: i64) -> u64 {
    if hwnd >= 0 {
        hwnd as u64
    } else {
        (hwnd + 0x1_0000_0000_0000_0000) as u64
    }
}

pub open spec fn handle_of_bits(bits: u64) -> i64 {
    if bits <= 0x7fff_ffff_ffff_ffff {
        bits as i64
    } else {
        (bits - 0x1_0000_0000_0000_0000) as i64
    }
}

/// The bytes that carry a tab payload.
pub open spec fn tab_bytes(payload: TabDragPayload) -> Seq<u8> {
    magic_bytes() + bytes::bytes32(payload.process_id) + bytes::bytes64(
        handle_bits(payload.source_hwnd),
    ) + bytes::bytes32(payload.tab_id)
}

/// The payload that bytes carry: exactly one, behind the opening bytes.
pub open spec fn tab_payload(b: Seq<u8>) -> Option<TabDragPayload> {
    if b.len() == 24 && b.subrange(0, 8) == magic_bytes() {
        Some(
            TabDragPayload {
                process_id: bytes::le32(b, 8),
                source_hwnd: handle_of_bits(bytes::le64(b, 12)),
                tab_id: bytes::le32(b, 20),
            },
        )
    } else {
        None
    }
}

fn handle_to_bits(hwnd: i64) -> (bits: u64)
    ensures
        bits == handle_bits(hwnd),
{
    if hwnd >= 0 {
        hwnd as u64
    } else {
        let below: i64 = -(hwnd + 1);
        0xffff_ffff_ffff_ffff - (below as u64)
    }
}

fn bits_to_handle(bits: u64) -> (hwnd: i64)
    ensures
        hwnd == handle_of_bits(bits),
{
    if bits <= 0x7fff_ffff_ffff_ffff {
        bits as i64
    } else {
        -((0xffff_ffff_ffff_ffff - bits) as i64) - 1
    }
}

pub fn encode_tab_drag_payload(payload: TabDragPayload) -> (b: Vec<u8>)
    ensures
        b@ == tab_bytes(payload),
{
    let mut b: Vec<u8> = Vec::new();
    let mut i: usize = 0;
    while i < 8
        invariant
            i <= 8,
            b@ == magic_bytes().subrange(0, i as int),
        decreases 8 - i,
    {
        b.push(TAB_DRAG_MAGIC[i]);
        i += 1;
        assert(b@ =~= magic_bytes().subrange(0, i as int));
    }
    assert(b@ =~= magic_bytes());
    push_u32(&mut b, payload.process_id);
    push_u64(&mut b, handle_to_bits(payload.source_hwnd));
    push_u32(&mut b, payload.tab_id);
    b
}

pub fn decode_tab_drag_payload(b: &[u8]) -> (payload: Option<TabDragPayload>)
    ensures
        payload == tab_payload(b@),
{
    if b.len() != 24 {
        return None;
    }
    let mut i: usize = 0;
    while i < 8
        invariant
            i <= 8,
            b@.len() == 24,
            forall|j: int| 0 <= j < i ==> b@[j] == magic_bytes()[j],
        decreases 8 - i,
    {
        if b[i] != TAB_DRAG_MAGIC[i] {
            assert(b@.subrange(0, 8)[i as int] != magic_bytes()[i as int]);
            return None;
        }
        i += 1;
    }
    assert(b@.subrange(0, 8) =~= magic_bytes());
    Some(
        TabDragPayload {
            process_id: read_u32(b, 8),
            source_hwnd: bits_to_handle(read_u64(b, 12)),
            tab_id: read_u32(b, 20),
        },
    )
}

/// Decoding what was encoded gives the payload back.
pub proof fn law_tab_payload_round_trip(payload: TabDragPayload)
    ensures
        tab_payload(tab_bytes(payload)) == Some(payload),
{
    let magic = magic_bytes();
    let process = bytes::bytes32(payload.process_id);
    let handle = bytes::bytes64(handle_bits(payload.source_hwnd));
    let tab = bytes::bytes32(payload.tab_id);
    let b = tab_bytes(payload);
    assert(b.subrange(0, 8) =~= magic);
    assert(b =~= magic + process + (handle + tab));
    bytes::lemma_le32(magic, payload.process_id, handle + tab);
    assert(b =~= (magic + process) + handle + tab);
    bytes::lemma_le64(magic + process, handle_bits(payload.source_hwnd), tab);
    assert(b =~= (magic + process + handle) + tab + Seq::<u8>::empty());
    bytes::lemma_le32(magic + process + handle, payload.tab_id, Seq::empty());
}

/// Bytes that hold a payload are its encoding, and no others hold it.
pub proof fn law_tab_payload_has_one_encoding(b: Seq<u8>, payload: TabDragPayload)
    requires
        tab_payload(b) == Some(payload),
    ensures
        b == tab_bytes(payload),
{
    bytes::lemma_bytes32(b, 8);
    bytes::lemma_bytes64(b, 12);
    bytes::lemma_bytes32(b, 20);
    assert(handle_bits(handle_of_bits(bytes::le64(b, 12))) == bytes::le64(b, 12));
    assert(b =~= b.subrange(0, 8) + b.subrange(8, 12) + b.subrange(12, 20) + b.subrange(20, 24));
}

// ---- tracking ----

/// Where a tab that is being dragged hovers, and where it was dropped.
#[derive(Debug, Clone, Copy, PartialEq, Eq, Structural)]
pub struct TabDropTracking {
    pub payload: TabDragPayload,
    pub hover: Option<TabDropPoint>,
    pub dropped: Option<TabDropPoint>,
}

pub open spec fn tracks(tracking: Option<TabDropTracking>, payload: TabDragPayload) -> bool {
    tracking matches Some(t) && t.payload == payload
}

/// A tab that is dragged over a window counts only where it comes from this process.
pub fn own_tab(payload: Option<TabDragPayload>, process_id: u32) -> (own: Option<TabDragPayload>)
    ensures
        own == match payload {
            Some(payload) if payload.process_id == process_id => Some(payload),
            _ => None,
        },
{
    match payload {
        Some(payload) => if payload.process_id == process_id {
            Some(payload)
        } else {
            None
        },
        None => None,
    }
}

pub fn begin_tracking(payload: TabDragPayload) -> (tracking: TabDropTracking)
    ensures
        tracking == (TabDropTracking { payload, hover: None, dropped: None }),
{
    TabDropTracking { payload, hover: None, dropped: None }
}

/// Notes where the tab hovers, if it is the tab being tracked; the target is told in any case.
pub fn track_tab_hover(
    tracking: &mut Option<TabDropTracking>,
    payload: TabDragPayload,
    hwnd: i64,
    screen_x: i32,
    screen_y: i32,
) -> (event: TabTargetEvent)
    ensures
        event == (TabTargetEvent::Hover { screen_x, screen_y }),
        *final(tracking) == if tracks(*old(tracking), payload) {
            Some(
                TabDropTracking {
                    hover: Some(TabDropPoint { target_hwnd: hwnd, screen_x, screen_y }),
                    ..old(tracking)->0
                },
            )
        } else {
            *old(tracking)
        },
{
    match *tracking {
        Some(t) => {
            if t.payload == payload {
                *tracking = Some(
                    TabDropTracking {
                        hover: Some(TabDropPoint { target_hwnd: hwnd, screen_x, screen_y }),
                        ..t
                    },
                );
            }
        },
        None => {},
    }
    TabTargetEvent::Hover { screen_x, screen_y }
}

/// Notes where the tab was dropped, if it is the tab being tracked.
pub fn track_tab_drop(
    tracking: &mut Option<TabDropTracking>,
    payload: TabDragPayload,
    hwnd: i64,
    screen_x: i32,
    screen_y: i32,
) -> (event: TabTargetEvent)
    ensures
        event == (TabTargetEvent::Drop { screen_x, screen_y }),
        ({
            let point = TabDropPoint { target_hwnd: hwnd, screen_x, screen_y };
            *final(tracking) == if tracks(*old(tracking), payload) {
                Some(
                    TabDropTracking { payload, hover: Some(point), dropped: Some(point) },
                )
            } else {
                *old(tracking)
            }
        }),
{
    match *tracking {
        Some(t) => {
            if t.payload == payload {
                let point = TabDropPoint { target_hwnd: hwnd, screen_x, screen_y };
                *tracking = Some(
                    TabDropTracking { payload, hover: Some(point), dropped: Some(point) },
                );
            }
        },
        None => {},
    }
    TabTargetEvent::Drop { screen_x, screen_y }
}

/// Forgets where the tab hovers once it has left the target.
pub fn track_tab_leave(tracking: &mut Option<TabDropTracking>) -> (event: TabTargetEvent)
    ensures
        event == TabTargetEvent::Leave,
        *final(tracking) == match *old(tracking) {
            Some(t) => Some(TabDropTracking { hover: None, ..t }),
            None => None,
        },
{
    match *tracking {
        Some(t) => {
            *tracking = Some(TabDropTracking { hover: None, ..t });
        },
        None => {},
    }
    TabTargetEvent::Leave
}

/// What a tab drag came to: where it was dropped, and whether it was let go over nothing.
pub fn tab_drag_result(tracking: Option<TabDropTracking>, ended_in_drop: bool, effect: u32) -> (r:
    TabDragResult)
    ensures
        r.dropped == match tracking {
            Some(t) => t.dropped,
            None => None,
        },
        r.released_outside == (ended_in_drop && effect == 0),
{
    TabDragResult {
        dropped: match tracking {
            Some(t) => t.dropped,
            None => None,
        },
        released_outside: ended_in_drop && effect == 0,
    }
}

// ---- the picture ----

#[derive(Debug, Clone)]
pub struct TabDragImage {
    pub title: String,
    pub icon: Option<(u32, u32, Vec<u8>)>,
    pub width_px: u32,
    pub height_px: u32,
    pub grab_x_px: i32,
    pub dark: bool,
    pub active: bool,
}

/// The size of the picture: never smaller than a readable card.
pub fn card_size(image: &TabDragImage) -> (size: (u32, u32))
    ensures
        size.0 == if image.width_px < 80 {
            80
        } else {
            image.width_px
        },
        size.1 == if image.height_px < 34 {
            34
        } else {
            image.height_px
        },
{
    (if image.width_px < 80 {
        80
    } else {
        image.width_px
    }, if image.height_px < 34 {
        34
    } else {
        image.height_px
    })
}

/// Where the icon of a tab is laid on its card: at the left, in the middle of the height.
pub fn icon_place(card: (u32, u32), icon_width: u32, icon_height: u32) -> (place: IconPlace)
    ensures
        place.card_width == card.0,
        place.card_height == card.1,
        place.x == 12,
        place.y == if card.1 < 16 {
            0
        } else {
            (card.1 - 16) / 2
        },
        place.width == 16,
        place.height == 16,
        place.icon_width == icon_width,
        place.icon_height == icon_height,
{
    IconPlace {
        card_width: card.0,
        card_height: card.1,
        x: 12,
        y: if card.1 < 16 {
            0
        } else {
            (card.1 - 16) / 2
        },
        width: 16,
        height: 16,
        icon_width,
        icon_height,
    }
}

/// The part of a card that its title is written in.
#[derive(Debug, Clone, Copy, PartialEq, Eq, Structural)]
pub struct TitleArea {
    pub left: i32,
    pub top: i32,
    pub right: i32,
    pub bottom: i32,
}

pub fn title_area(card: (u32, u32)) -> (area: TitleArea)
    requires
        card.0 <= i32::MAX,
        card.1 <= i32::MAX,
    ensures
        area.left == 34,
        area.top == 0,
        area.right == card.0 - 10,
        area.bottom == card.1,
{
    TitleArea { left: 34, top: 0, right: card.0 as i32 - 10, bottom: card.1 as i32 }
}

/// The pixels with full opacity: in each of them the last of four bytes.
pub open spec fn opaque(pixels: Seq<u8>) -> Seq<u8> {
    Seq::new(
        pixels.len(),
        |i: int|
            if i % 4 == 3 {
                255u8
            } else {
                pixels[i]
            },
    )
}

/// Gives all pixels of a card full opacity; beyond its corners a colour stands for what is clear.
pub fn make_opaque(card: &mut Vec<u8>)
    ensures
        final(card)@ == opaque(old(card)@),
{
    let n: usize = card.len();
    let mut i: usize = 0;
    while i < n
        invariant
            n == old(card)@.len(),
            card@.len() == n,
            i <= n,
            forall|j: int| 0 <= j < i ==> card@[j] == opaque(old(card)@)[j],
            forall|j: int| i <= j < n ==> card@[j] == old(card)@[j],
        decreases n - i,
    {
        if i % 4 == 3 {
            card.set(i, 255);
        }
        i += 1;
    }
    assert(card@ =~= opaque(old(card)@));
}

/// The colours of the card as 0x00BBGGRR: background and text.
pub fn card_colours(dark: bool, active: bool) -> (colours: (u32, u32))
    ensures
        colours == match (dark, active) {
            (true, true) => (0x00373432u32, 0x00f2f2f2u32),
            (true, false) => (0x003e3b3au32, 0x00f2f2f2u32),
            (false, true) => (0x00f5f2f1u32, 0x00383130u32),
            (false, false) => (0x00ffffffu32, 0x00383130u32),
        },
{
    let text: u32 = if dark {
        0x00f2f2f2
    } else {
        0x00383130
    };
    let background: u32 = if dark {
        if active {
            0x00373432
        } else {
            0x003e3b3a
        }
    } else if active {
        0x00f5f2f1
    } else {
        0x00ffffff
    };
    (background, text)
}

/// Where in the picture the pointer holds it: within its width, at half its height.
pub fn grab_point(image: &TabDragImage) -> (point: (i32, i32))
    requires
        image.width_px <= i32::MAX,
        image.height_px <= i32::MAX,
    ensures
        point.0 == if image.grab_x_px < 0 {
            0
        } else if image.width_px == 0 {
            0
        } else if image.grab_x_px > image.width_px - 1 {
            (image.width_px - 1) as i32
        } else {
            image.grab_x_px
        },
        point.1 == image.height_px / 2,
{
    let last: i32 = if image.width_px == 0 {
        0
    } else {
        (image.width_px - 1) as i32
    };
    let x: i32 = if image.grab_x_px < 0 {
        0
    } else if image.grab_x_px > last {
        last
    } else {
        image.grab_x_px
    };
    (x, (image.height_px / 2) as i32)
}

/// A byte of the icon; zero where the icon has fewer bytes than its size says.
pub open spec fn icon_byte(source: Seq<u8>, at: int) -> int {
    if 0 <= at < source.len() {
        source[at] as int
    } else {
        0
    }
}

/// One colour value of the icon laid over one of the card.
pub open spec fn blended(over: int, under: int, alpha: int) -> int {
    (over * alpha + under * (255 - alpha)) / 255
}

/// Where an icon is laid on a card, in pixels.
#[derive(Debug, Clone, Copy)]
pub struct IconPlace {
    pub card_width: u32,
    pub card_height: u32,
    pub x: u32,
    pub y: u32,
    pub width: u32,
    pub height: u32,
    pub icon_width: u32,
    pub icon_height: u32,
}

impl IconPlace {
    /// The sizes that the pixel positions need to be numbers of 32 bits.
    pub open spec fn fits(self) -> bool {
        &&& self.card_width * self.card_height * 4 <= u32::MAX
        &&& self.x + self.width <= u32::MAX
        &&& self.y + self.height <= u32::MAX
        &&& self.width * self.icon_width <= u32::MAX
        &&& self.height * self.icon_height <= u32::MAX
        &&& self.icon_width * self.icon_height * 4 <= u32::MAX
    }

    /// The pixel of the card that a byte position belongs to lies under the icon.
    pub open spec fn covers(self, at: int) -> bool {
        let px = (at / 4) % (self.card_width as int);
        let py = (at / 4) / (self.card_width as int);
        &&& self.icon_width > 0 && self.icon_height > 0
        &&& at % 4 < 3
        &&& self.x <= px < self.x + self.width
        &&& self.y <= py < self.y + self.height
    }

    /// The position in the icon of the pixel laid over a byte of the card.
    pub open spec fn icon_at(self, at: int) -> int {
        let px = (at / 4) % (self.card_width as int);
        let py = (at / 4) / (self.card_width as int);
        let sx = (px - self.x) * self.icon_width / (self.width as int);
        let sy = (py - self.y) * self.icon_height / (self.height as int);
        (sy * self.icon_width + sx) * 4
    }
}

/// The card with the icon laid over it: red, green, blue and alpha of the icon over blue, green
/// and red of the card.
pub open spec fn composited(card: Seq<u8>, place: IconPlace, source: Seq<u8>) -> Seq<u8> {
    Seq::new(
        card.len(),
        |at: int|
            if place.covers(at) {
                let icon = place.icon_at(at);
                blended(
                    icon_byte(source, icon + 2 - at % 4),
                    card[at] as int,
                    icon_byte(source, icon + 3),
                ) as u8
            } else {
                card[at]
            },
    )
}

proof fn lemma_scaled(offset: int, size: int, icon: int)
    requires
        0 <= offset < size <= u32::MAX,
        0 < icon <= u32::MAX,
        size * icon <= u32::MAX,
    ensures
        0 <= offset * icon <= u32::MAX,
        0 <= offset * icon / size < icon,
{
    assert(0 <= offset * icon <= size * icon) by (nonlinear_arith)
        requires
            0 <= offset < size,
            0 < icon,
    ;
    assert(offset * icon / size < icon) by (nonlinear_arith)
        requires
            0 <= offset < size,
            0 < icon,
    ;
    assert(0 <= offset * icon / size) by (nonlinear_arith)
        requires
            0 <= offset * icon,
            0 < size,
    ;
}

proof fn lemma_icon_position(sx: int, sy: int, w: int, h: int)
    requires
        0 <= sx < w,
        0 <= sy < h,
        w * h * 4 <= u32::MAX,
    ensures
        0 <= sy * w <= u32::MAX,
        0 <= (sy * w + sx) * 4 + 3 <= u32::MAX,
        0 <= sy * w + sx <= u32::MAX,
{
    assert(0 <= sy * w && sy * w + sx < h * w) by (nonlinear_arith)
        requires
            0 <= sx < w,
            0 <= sy < h,
    ;
    assert(w * h == h * w) by (nonlinear_arith);
}

proof fn lemma_blend(over: int, under: int, alpha: int)
    requires
        0 <= over <= 255,
        0 <= under <= 255,
        0 <= alpha <= 255,
    ensures
        0 <= over * alpha <= 65025,
        0 <= under * (255 - alpha) <= 65025,
        0 <= over * alpha + under * (255 - alpha) <= 65025,
        0 <= blended(over, under, alpha) <= 255,
{
    assert(0 <= over * alpha <= 255 * alpha) by (nonlinear_arith)
        requires
            0 <= over <= 255,
            0 <= alpha,
    ;
    assert(0 <= under * (255 - alpha) <= 255 * (255 - alpha)) by (nonlinear_arith)
        requires
            0 <= under <= 255,
            0 <= 255 - alpha,
    ;
}

fn byte_or_zero(source: &[u8], at: usize) -> (value: u32)
    ensures
        value == icon_byte(source@, at as int),
        value <= 255,
{
    if at < source.len() {
        source[at] as u32
    } else {
        0
    }
}

/// Lays an icon over a card.
pub fn composite_icon(card: &mut Vec<u8>, place: IconPlace, source: &[u8])
    requires
        place.fits(),
        old(card)@.len() == place.card_width * place.card_height * 4,
    ensures
        final(card)@ == composited(old(card)@, place, source@),
{
    let n: usize = card.len();
    let ghost before = card@;
    if place.icon_width == 0 || place.icon_height == 0 {
        assert(card@ =~= composited(before, place, source@));
        return;
    }
    let mut at: usize = 0;
    while at < n
        invariant
            at <= n,
            n == card@.len(),
            n == before.len(),
            n == place.card_width * place.card_height * 4,
            place.fits(),
            place.icon_width > 0,
            place.icon_height > 0,
            forall|j: int|
                0 <= j < at ==> #[trigger] card@[j] == composited(before, place, source@)[j],
            forall|j: int| at <= j < n ==> #[trigger] card@[j] == before[j],
        decreases n - at,
    {
        let pixel: usize = at / 4;
        let channel: usize = at % 4;
        proof {
            assert(place.card_width > 0) by (nonlinear_arith)
                requires
                    place.card_width * place.card_height * 4 > 0,
                    place.card_width >= 0,
                    place.card_height >= 0,
            ;
        }
        let width: usize = place.card_width as usize;
        let px: usize = pixel % width;
        let py: usize = pixel / width;
        if channel < 3 && place.x as usize <= px && px - (place.x as usize) < place.width as usize
            && place.y as usize <= py && py - (place.y as usize) < place.height as usize {
            let dx: u32 = (px - place.x as usize) as u32;
            let dy: u32 = (py - place.y as usize) as u32;
            proof {
                lemma_scaled(dx as int, place.width as int, place.icon_width as int);
                lemma_scaled(dy as int, place.height as int, place.icon_height as int);
            }
            let sx: u32 = dx * place.icon_width / place.width;
            let sy: u32 = dy * place.icon_height / place.height;
            proof {
                lemma_icon_position(
                    sx as int,
                    sy as int,
                    place.icon_width as int,
                    place.icon_height as int,
                );
            }
            let icon: u32 = (sy * place.icon_width + sx) * 4;
            let alpha: u32 = byte_or_zero(source, (icon + 3) as usize);
            let over: u32 = byte_or_zero(source, (icon + 2 - channel as u32) as usize);
            let under: u32 = card[at] as u32;
            proof {
                lemma_blend(over as int, under as int, alpha as int);
            }
            let value: u8 = ((over * alpha + under * (255 - alpha)) / 255) as u8;
            assert(place.covers(at as int));
            assert(icon == place.icon_at(at as int));
            card.set(at, value);
        } else {
            assert(!place.covers(at as int));
        }
        at += 1;
    }
    assert(card@ =~= composited(before, place, source@));
}

/// Laying an icon over a card keeps every pixel outside the icon's place.
pub proof fn law_icon_changes_only_its_place(
    card: Seq<u8>,
    place: IconPlace,
    source: Seq<u8>,
    at: int,
)
    requires
        0 <= at < card.len(),
        !place.covers(at),
    ensures
        composited(card, place, source)[at] == card[at],
{
}

/// A dragged tab is recognised as the tab that it is, by its own process only.
pub proof fn law_a_dragged_tab_is_recognised(
    payload: TabDragPayload,
    b: Vec<u8>,
    received: &[u8],
    read: Option<TabDragPayload>,
    process_id: u32,
    own: Option<TabDragPayload>,
)
    requires
        call_ensures(encode_tab_drag_payload, (payload,), b),
        received@ == b@,
        call_ensures(decode_tab_drag_payload, (received,), read),
        call_ensures(own_tab, (read, process_id), own),
    ensures
        read matches Some(found) && found.process_id == payload.process_id && found.source_hwnd
            == payload.source_hwnd && found.tab_id == payload.tab_id,
        own is Some <==> payload.process_id == process_id,
        own matches Some(found) ==> found.tab_id == payload.tab_id && found.source_hwnd
            == payload.source_hwnd,
{
    law_tab_payload_round_trip(payload);
}

/// The tab that is tracked ends where it was dropped; a foreign tab moves nothing.
pub proof fn law_a_tab_ends_where_it_was_dropped(
    tracking: &mut Option<TabDropTracking>,
    payload: TabDragPayload,
    hwnd: i64,
    x: i32,
    y: i32,
    event: TabTargetEvent,
    ended_in_drop: bool,
    effect: u32,
    result: TabDragResult,
)
    requires
        call_ensures(track_tab_drop, (tracking, payload, hwnd, x, y), event),
        call_ensures(tab_drag_result, (*final(tracking), ended_in_drop, effect), result),
        *old(tracking) is Some,
    ensures
        event == (TabTargetEvent::Drop { screen_x: x, screen_y: y }),
        old(tracking)->0.payload == payload ==> (result.dropped matches Some(point)
            && point.target_hwnd == hwnd && point.screen_x == x && point.screen_y == y),
        old(tracking)->0.payload != payload ==> result.dropped == old(tracking)->0.dropped,
        result.released_outside <==> ended_in_drop && effect == 0,
{
}

/// Hovering and leaving never drop a tab.
pub proof fn law_only_a_drop_drops(
    hovered: &mut Option<TabDropTracking>,
    payload: TabDragPayload,
    hwnd: i64,
    x: i32,
    y: i32,
    hover: TabTargetEvent,
    left: &mut Option<TabDropTracking>,
    leave: TabTargetEvent,
)
    requires
        call_ensures(track_tab_hover, (hovered, payload, hwnd, x, y), hover),
        call_ensures(track_tab_leave, (left,), leave),
        *old(hovered) is Some && *old(left) is Some,
    ensures
        final(hovered)->0.dropped == old(hovered)->0.dropped,
        final(left)->0.dropped == old(left)->0.dropped,
        final(left)->0.hover is None,
        old(hovered)->0.payload == payload ==> final(hovered)->0.hover == Some(
            TabDropPoint { target_hwnd: hwnd, screen_x: x, screen_y: y },
        ),
{
}

/// Where the icon is opaque its own colour shows, and where it is clear that of the card; red and
/// blue change places.
pub proof fn law_icons_cover_and_let_through(
    card: &mut Vec<u8>,
    place: IconPlace,
    source: &[u8],
    px: int,
    py: int,
    colour: int,
)
    requires
        call_ensures(composite_icon, (card, place, source), ()),
        place.width == place.icon_width && place.height == place.icon_height,
        place.width > 0 && place.height > 0,
        0 <= px < place.width && 0 <= py < place.height,
        0 <= colour < 3,
        place.x + px < place.card_width,
        0 <= (py * place.width + px) * 4 && (py * place.width + px) * 4 + 4 <= source@.len(),
        0 <= ((place.y + py) * place.card_width + place.x + px) * 4 + colour < old(card)@.len(),
    ensures
        ({
            let at = ((place.y + py) * place.card_width + place.x + px) * 4 + colour;
            let from = (py * place.width + px) * 4;
            &&& source@[from + 3] == 255 ==> final(card)@[at] == source@[from + 2 - colour]
            &&& source@[from + 3] == 0 ==> final(card)@[at] == old(card)@[at]
        }),
{
    let w = place.card_width as int;
    let row = place.y + py;
    let column = place.x + px;
    let at = (row * w + column) * 4 + colour;
    assert(at / 4 == row * w + column && at % 4 == colour);
    assert((row * w + column) % w == column && (row * w + column) / w == row) by (nonlinear_arith)
        requires
            0 <= column < w,
            0 <= row,
    ;
    let iw = place.icon_width as int;
    let ih = place.icon_height as int;
    assert(px * iw / iw == px && py * ih / ih == py) by (nonlinear_arith)
        requires
            iw > 0,
            ih > 0,
    ;
    assert(place.covers(at));
    assert(place.icon_at(at) == (py * iw + px) * 4);
    let over = source@[(py * iw + px) * 4 + 2 - colour] as int;
    let under = old(card)@[at] as int;
    assert((over * 255 + under * (255 - 255)) / 255 == over);
    assert((over * 0 + under * (255 - 0)) / 255 == under);
}

/// The card is at least as large as its parts, its icon stands in the middle of its height and its
/// title beside it; it is held at a point that lies on the tab.
pub proof fn law_a_card_has_room_for_its_parts(
    image: TabDragImage,
    size: (u32, u32),
    place: IconPlace,
    area: TitleArea,
    point: (i32, i32),
    icon_width: u32,
    icon_height: u32,
)
    requires
        image.width_px <= i32::MAX,
        image.height_px <= i32::MAX,
        call_ensures(card_size, (&image,), size),
        call_ensures(icon_place, (size, icon_width, icon_height), place),
        call_ensures(title_area, (size,), area),
        call_ensures(grab_point, (&image,), point),
    ensures
        size.0 >= 80 && size.1 >= 34,
        image.width_px >= 80 ==> size.0 == image.width_px,
        image.height_px >= 34 ==> size.1 == image.height_px,
        place.x + place.width <= area.left,
        place.y + place.height <= size.1,
        -1 <= size.1 - place.height - 2 * place.y <= 1,
        area.left < area.right < size.0,
        area.top == 0 && area.bottom == size.1,
        0 <= point.0,
        image.width_px > 0 ==> point.0 < image.width_px,
        0 <= image.grab_x_px < image.width_px ==> point.0 == image.grab_x_px,
        -1 <= image.height_px - 2 * point.1 <= 1,
{
}

/// An opaque card keeps every colour and lets nothing through.
pub proof fn law_an_opaque_card_keeps_its_colours(card: &mut Vec<u8>, at: int)
    requires
        call_ensures(make_opaque, (card,), ()),
        0 <= at < old(card)@.len(),
    ensures
        final(card)@.len() == old(card)@.len(),
        at % 4 == 3 ==> final(card)@[at] == 255,
        at % 4 != 3 ==> final(card)@[at] == old(card)@[at],
{
}

} // verus!
