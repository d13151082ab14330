//! The windows of pop-up menus: their styles, their colours, their owners.
use vstd::prelude::*;

use crate::errors;
use crate::errors::{ErrorKind, IoError};
use crate::text;
use crate::text::{push_hex, push_text, text_of};

verus! {

#[derive(Debug, Clone, Copy, PartialEq, Eq, Structural)]
pub struct PhysicalRect {
    pub x: i32,
    pub y: i32,
    pub width: i32,
    pub height: i32,
}

// ---- the backdrop ----

/// The kind of backdrop: a transient window's, or none.
pub fn backdrop_type(enabled: bool) -> (kind: i32)
    ensures
        kind == if enabled {
            3i32
        } else {
            1i32
        },
{
    if enabled {
        3
    } else {
        1
    }
}

/// The state of the accent behind a window: acrylic, or disabled.
pub fn accent_state(enabled: bool) -> (state: i32)
    ensures
        state == if enabled {
            4i32
        } else {
            0i32
        },
{
    if enabled {
        4
    } else {
        0
    }
}

/// The opacity of the tint, out of 255, for a percentage; it is never wholly transparent.
pub open spec fn tint_alpha(opacity: int) -> int {
    let percent = if opacity < 100 {
        opacity
    } else {
        100
    };
    let rounded = (percent * 255 + 50) / 100;
    if rounded < 1 {
        1
    } else {
        rounded
    }
}

pub open spec fn tint(dark_theme: bool) -> int {
    if dark_theme {
        0x20_2020
    } else {
        0xd3_d3d3
    }
}

pub fn acrylic_gradient_color(dark_theme: bool, opacity: u8) -> (color: u32)
    ensures
        color == tint_alpha(opacity as int) * 0x100_0000 + tint(dark_theme),
{
    let percent: u32 = if opacity < 100 {
        opacity as u32
    } else {
        100
    };
    let rounded: u32 = (percent * 255 + 50) / 100;
    let alpha: u32 = if rounded < 1 {
        1
    } else {
        rounded
    };
    let rgb: u32 = if dark_theme {
        0x20_2020
    } else {
        0xd3_d3d3
    };
    alpha * 0x100_0000 + rgb
}

// ---- the style ----

pub const GWL_STYLE: i32 = -16;

pub const GWL_EXSTYLE: i32 = -20;

/// Caption, system menu, and the boxes that minimize and maximize.
pub const FRAME_STYLES: u32 = 0x00cb_0000;

pub const WS_POPUP: u32 = 0x8000_0000;

pub const WS_EX_APPWINDOW: u32 = 0x0004_0000;

/// A tool window that is not activated.
pub const POPUP_EX_STYLES: u32 = 0x0800_0080;

/// The style that a pop-up keeps, whatever style is asked for.
pub open spec fn kept_style(index: i32, style: u32) -> u32 {
    if index == GWL_STYLE {
        (style & !FRAME_STYLES) | WS_POPUP
    } else if index == GWL_EXSTYLE {
        (style & !WS_EX_APPWINDOW) | POPUP_EX_STYLES
    } else {
        style
    }
}

pub fn popup_style(index: i32, style: u32) -> (kept: u32)
    ensures
        kept == kept_style(index, style),
{
    if index == GWL_STYLE {
        (style & !FRAME_STYLES) | WS_POPUP
    } else if index == GWL_EXSTYLE {
        (style & !WS_EX_APPWINDOW) | POPUP_EX_STYLES
    } else {
        style
    }
}

/// The styles to set on a pop-up.
#[derive(Debug, Clone, Copy, PartialEq, Eq, Structural)]
pub struct StylePlan {
    pub style: Option<i64>,
    pub extended: Option<i64>,
}

pub open spec fn style_to_set(index: i32, current: i64) -> Option<i64> {
    let wanted = kept_style(index, current as u32) as i64;
    if wanted == current {
        None
    } else {
        Some(wanted)
    }
}

fn plan_style(index: i32, current: i64) -> (plan: Option<i64>)
    ensures
        plan == style_to_set(index, current),
{
    let wanted: i64 = popup_style(index, #[verifier::truncate] (current as u32)) as i64;
    if wanted == current {
        None
    } else {
        Some(wanted)
    }
}

/// The styles to change, given the present ones. The frame is drawn anew where there is one.
pub fn plan_styles(style: i64, extended: i64) -> (plan: StylePlan)
    ensures
        plan.style == style_to_set(GWL_STYLE, style),
        plan.extended == style_to_set(GWL_EXSTYLE, extended),
{
    StylePlan { style: plan_style(GWL_STYLE, style), extended: plan_style(GWL_EXSTYLE, extended) }
}

// ---- messages ----

/// What the window of a pop-up does with a message.
#[derive(Debug, Clone, Copy, PartialEq, Eq, Structural)]
pub enum PopupReply {
    /// Answer this, and nothing else.
    Answer(i64),
    /// Apply `popup_style` to the new style, then go on.
    Restyle,
    /// Add `NO_ACTIVATE` to the flags of the position, then go on.
    KeepInactive,
    /// Stop listening, then go on.
    Detach,
    /// Go on.
    Pass,
}

pub const MA_NOACTIVATE: i64 = 3;

pub const NO_ACTIVATE: u32 = 0x10;

pub const WM_MOUSEACTIVATE: u32 = 33;

pub const WM_WINDOWPOSCHANGING: u32 = 70;

pub const WM_STYLECHANGING: u32 = 124;

pub const WM_NCDESTROY: u32 = 130;

pub fn popup_window_proc(message: u32, has_data: bool) -> (reply: PopupReply)
    ensures
        reply == if message == WM_MOUSEACTIVATE {
            PopupReply::Answer(MA_NOACTIVATE)
        } else if message == WM_STYLECHANGING && has_data {
            PopupReply::Restyle
        } else if message == WM_WINDOWPOSCHANGING && has_data {
            PopupReply::KeepInactive
        } else if message == WM_NCDESTROY {
            PopupReply::Detach
        } else {
            PopupReply::Pass
        },
{
    if message == WM_MOUSEACTIVATE {
        PopupReply::Answer(MA_NOACTIVATE)
    } else if message == WM_STYLECHANGING && has_data {
        PopupReply::Restyle
    } else if message == WM_WINDOWPOSCHANGING && has_data {
        PopupReply::KeepInactive
    } else if message == WM_NCDESTROY {
        PopupReply::Detach
    } else {
        PopupReply::Pass
    }
}

// ---- owners ----

/// The window that will own the next pop-up, or zero.
#[derive(Debug, Clone, Copy, PartialEq, Eq, Structural)]
pub struct PendingWindowOwner {
    pub owner: i64,
}

pub fn prepare_window(pending: &mut PendingWindowOwner, owner: i64)
    ensures
        final(pending).owner == owner,
{
    pending.owner = owner;
}

pub fn cancel_prepared_window(pending: &mut PendingWindowOwner)
    ensures
        final(pending).owner == 0,
{
    pending.owner = 0;
}

/// Hands the prepared owner out once.
pub fn take_pending_window_owner(pending: &mut PendingWindowOwner) -> (owner: Option<i64>)
    ensures
        final(pending).owner == 0,
        owner == if old(pending).owner != 0 {
            Some(old(pending).owner)
        } else {
            None
        },
{
    let owner: i64 = pending.owner;
    pending.owner = 0;
    if owner != 0 {
        Some(owner)
    } else {
        None
    }
}

/// Whether a pop-up can get an owner, given which of the two windows exist.
pub fn attach_owner(popup: i64, owner: i64, popup_exists: bool, owner_exists: bool) -> (result:
    Result<(), IoError>)
    ensures
        match result {
            Ok(_) => popup != 0 && owner != 0 && popup_exists && owner_exists,
            Err(error) => if popup == 0 || owner == 0 {
                errors::fails_with(
                    error,
                    ErrorKind::InvalidInput,
                    "popup owner is unavailable"@,
                )
            } else {
                (!popup_exists || !owner_exists) && errors::fails_with(
                    error,
                    ErrorKind::NotFound,
                    "popup owner was destroyed"@,
                )
            },
        },
{
    if popup == 0 || owner == 0 {
        return Err(IoError::new(ErrorKind::InvalidInput, "popup owner is unavailable"));
    }
    if !popup_exists || !owner_exists {
        return Err(IoError::new(ErrorKind::NotFound, "popup owner was destroyed"));
    }
    Ok(())
}

/// Whether the window of a pop-up is still there.
pub fn check_popup(hwnd: i64, exists_now: bool) -> (result: Result<(), IoError>)
    ensures
        result is Ok <==> hwnd != 0 && exists_now,
        result matches Err(error) ==> errors::fails_with(
            error,
            ErrorKind::NotFound,
            "popup window was destroyed"@,
        ),
{
    if hwnd == 0 || !exists_now {
        Err(IoError::new(ErrorKind::NotFound, "popup window was destroyed"))
    } else {
        Ok(())
    }
}

/// A result code as an unsigned number.
pub open spec fn unsigned_code(code: i32) -> int {
    if code < 0 {
        code + 0x1_0000_0000
    } else {
        code as int
    }
}

/// The meaning of a result code: negative ones are failures of the call that is named.
pub fn compositor_result(call: &str, code: i32) -> (result: Result<(), IoError>)
    ensures
        result is Ok <==> code >= 0,
        result matches Err(error) ==> errors::fails_with(
            error,
            ErrorKind::Other,
            call@ + " failed: 0x"@ + text::hex_digits(unsigned_code(code) as nat, 8),
        ),
{
    if code < 0 {
        let mut message = text_of(call);
        push_text(&mut message, " failed: 0x");
        let shown: i64 = code as i64 + 0x1_0000_0000;
        push_hex(&mut message, shown as u64, 8);
        Err(IoError { kind: ErrorKind::Other, code: None, message })
    } else {
        Ok(())
    }
}

/// Whether a point can be converted: only where there is an owner.
pub fn client_point_to_screen(owner: i64) -> (result: Result<(), IoError>)
    ensures
        result is Ok <==> owner != 0,
        result matches Err(error) ==> errors::fails_with(
            error,
            ErrorKind::InvalidInput,
            "popup owner is unavailable"@,
        ),
{
    if owner == 0 {
        Err(IoError::new(ErrorKind::InvalidInput, "popup owner is unavailable"))
    } else {
        Ok(())
    }
}

/// The difference of two coordinates, kept within the range of a coordinate.
pub open spec fn clamped_difference(a: int, b: int) -> int {
    if a - b > i32::MAX {
        i32::MAX as int
    } else if a - b < i32::MIN {
        i32::MIN as int
    } else {
        a - b
    }
}

fn difference(a: i32, b: i32) -> (d: i32)
    ensures
        d == clamped_difference(a as int, b as int),
{
    let d: i64 = a as i64 - b as i64;
    if d > 0x7fff_ffff {
        i32::MAX
    } else if d < -0x8000_0000 {
        i32::MIN
    } else {
        d as i32
    }
}

/// The work area with these edges.
pub fn work_area_for_point(left: i32, top: i32, right: i32, bottom: i32) -> (area: PhysicalRect)
    ensures
        area.x == left,
        area.y == top,
        area.width == clamped_difference(right as int, left as int),
        area.height == clamped_difference(bottom as int, top as int),
{
    PhysicalRect { x: left, y: top, width: difference(right, left), height: difference(bottom, top) }
}

// ---- the foreground ----

/// The window is the owner or one of the pop-ups.
pub open spec fn is_ours(window: i64, owner: i64, popups: Seq<i64>) -> bool {
    window == owner || (window != 0 && popups.contains(window))
}

fn window_is_ours(window: i64, owner: i64, popups: &[i64]) -> (ours: bool)
    ensures
        ours == is_ours(window, owner, popups@),
{
    if window == owner {
        return true;
    }
    if window == 0 {
        return false;
    }
    let n: usize = popups.len();
    let mut i: usize = 0;
    while i < n
        invariant
            n == popups@.len(),
            i <= n,
            window != 0,
            forall|j: int| 0 <= j < i ==> popups@[j] != window,
        decreases n - i,
    {
        if popups[i] == window {
            return true;
        }
        i += 1;
    }
    false
}

/// Whether the foreground belongs to a menu. `chain` is the foreground window, its owner, that
/// one's owner and so on, up to and with the zero that ends it.
pub fn foreground_belongs_to(owner: i64, popups: &[i64], chain: &[i64]) -> (belongs: bool)
    ensures
        belongs == (chain@.len() > 0 && chain@[0] != 0 && exists|i: int|
            0 <= i < chain@.len() && is_ours(#[trigger] chain@[i], owner, popups@)),
{
    let n: usize = chain.len();
    if n == 0 || chain[0] == 0 {
        return false;
    }
    let mut i: usize = 0;
    while i < n
        invariant
            n == chain@.len(),
            0 < n,
            i <= n,
            chain@[0] != 0,
            forall|j: int| 0 <= j < i ==> !is_ours(#[trigger] chain@[j], owner, popups@),
        decreases n - i,
    {
        if window_is_ours(chain[i], owner, popups) {
            return true;
        }
        i += 1;
    }
    false
}

/// Whether a window is brought to the front: only where the foreground belongs to it.
pub fn focus_window(hwnd: i64, exists_now: bool, foreground: i64, foreground_owner: i64) -> (focus:
    bool)
    ensures
        focus == (hwnd != 0 && exists_now && foreground != hwnd && foreground_owner == hwnd),
{
    hwnd != 0 && exists_now && foreground != hwnd && foreground_owner == hwnd
}

// ---- laws ----

/// A pop-up has no frame and is no application window, whatever style is asked for.
pub proof fn law_popups_keep_their_style(style: u32)
    ensures
        kept_style(GWL_STYLE, style) & FRAME_STYLES == 0,
        kept_style(GWL_STYLE, style) & WS_POPUP == WS_POPUP,
        kept_style(GWL_EXSTYLE, style) & WS_EX_APPWINDOW == 0,
        kept_style(GWL_EXSTYLE, style) & POPUP_EX_STYLES == POPUP_EX_STYLES,
{
    assert(((style & !0x00cb_0000u32) | 0x8000_0000u32) & 0x00cb_0000u32 == 0) by (bit_vector);
    assert(((style & !0x00cb_0000u32) | 0x8000_0000u32) & 0x8000_0000u32 == 0x8000_0000u32)
        by (bit_vector);
    assert(((style & !0x0004_0000u32) | 0x0800_0080u32) & 0x0004_0000u32 == 0) by (bit_vector);
    assert(((style & !0x0004_0000u32) | 0x0800_0080u32) & 0x0800_0080u32 == 0x0800_0080u32)
        by (bit_vector);
}

/// A style that a pop-up keeps is left alone.
pub proof fn law_kept_styles_are_stable(index: i32, style: u32)
    ensures
        kept_style(index, kept_style(index, style)) == kept_style(index, style),
{
    let framed = (style & !0x00cb_0000u32) | 0x8000_0000u32;
    let shown = (style & !0x0004_0000u32) | 0x0800_0080u32;
    assert((framed & !0x00cb_0000u32) | 0x8000_0000u32 == framed) by (bit_vector)
        requires
            framed == (style & !0x00cb_0000u32) | 0x8000_0000u32,
    ;
    assert((shown & !0x0004_0000u32) | 0x0800_0080u32 == shown) by (bit_vector)
        requires
            shown == (style & !0x0004_0000u32) | 0x0800_0080u32,
    ;
}

/// A pop-up keeps its style however it is asked for: what is planned is what is missing, and a window
/// that has it already is left alone.
pub proof fn law_a_popup_is_styled_once(
    style: u32,
    kept: u32,
    kept_extended: u32,
    other: i32,
    untouched: u32,
    plan: StylePlan,
)
    requires
        call_ensures(popup_style, (-16i32, style), kept),
        call_ensures(popup_style, (-20i32, style), kept_extended),
        other != -16 && other != -20,
        call_ensures(popup_style, (other, style), untouched),
        call_ensures(plan_styles, (kept as i64, kept_extended as i64), plan),
    ensures
        kept & 0x00cb_0000 == 0 && kept & 0x8000_0000 == 0x8000_0000,
        kept_extended & 0x0004_0000 == 0 && kept_extended & 0x0800_0080 == 0x0800_0080,
        untouched == style,
        plan.style is None && plan.extended is None,
{
    law_popups_keep_their_style(style);
    law_kept_styles_are_stable(GWL_STYLE, style);
    law_kept_styles_are_stable(GWL_EXSTYLE, style);
    assert((kept as i64) as u32 == kept);
    assert((kept_extended as i64) as u32 == kept_extended);
}

/// The owner of the next window is used once: it is taken by the first window that asks, and not at all
/// once it was cancelled.
pub proof fn law_the_owner_is_taken_once(
    first: &mut PendingWindowOwner,
    second: &mut PendingWindowOwner,
    third: &mut PendingWindowOwner,
    owner: i64,
    taken: Option<i64>,
    again: Option<i64>,
)
    requires
        call_ensures(prepare_window, (first, owner), ()),
        *old(second) == *final(first),
        call_ensures(take_pending_window_owner, (second,), taken),
        *old(third) == *final(second),
        call_ensures(take_pending_window_owner, (third,), again),
    ensures
        owner != 0 ==> taken == Some(owner),
        owner == 0 ==> taken is None,
        again is None,
{
}

/// An owner that was cancelled is not taken.
pub proof fn law_a_cancelled_owner_is_not_taken(
    first: &mut PendingWindowOwner,
    second: &mut PendingWindowOwner,
    taken: Option<i64>,
)
    requires
        call_ensures(cancel_prepared_window, (first,), ()),
        *old(second) == *final(first),
        call_ensures(take_pending_window_owner, (second,), taken),
    ensures
        taken is None,
{
}

/// The foreground belongs to the window or one of its pop-ups where one of the windows from the front
/// one on is one of them; without a front window it does not.
pub proof fn law_popups_belong_to_their_owner(
    owner: i64,
    popups: &[i64],
    chain: &[i64],
    at: int,
    belongs: bool,
)
    requires
        0 <= at < chain@.len(),
        call_ensures(foreground_belongs_to, (owner, popups, chain), belongs),
    ensures
        chain@[0] == 0 ==> !belongs,
        chain@[0] != 0 && chain@[at] == owner ==> belongs,
        chain@[0] != 0 && chain@[at] != 0 && popups@.contains(chain@[at]) ==> belongs,
        (forall|i: int|
            0 <= i < chain@.len() ==> #[trigger] chain@[i] != owner && !popups@.contains(chain@[i]))
            ==> !belongs,
{
    if chain@[0] != 0 && (chain@[at] == owner || (chain@[at] != 0 && popups@.contains(chain@[at]))) {
        assert(is_ours(chain@[at], owner, popups@));
    }
}

/// The tint is as opaque as asked for, never wholly clear, and grows with the opacity; below it lies
/// the colour of the theme.
pub proof fn law_the_tint_follows_the_opacity(
    dark: bool,
    opacity: u8,
    more: u8,
    color: u32,
    denser: u32,
    enabled: bool,
    kind: i32,
    accent: i32,
)
    requires
        opacity <= more,
        call_ensures(acrylic_gradient_color, (dark, opacity), color),
        call_ensures(acrylic_gradient_color, (dark, more), denser),
        call_ensures(backdrop_type, (enabled,), kind),
        call_ensures(accent_state, (enabled,), accent),
    ensures
        color <= denser,
        color % 0x100_0000 == if dark {
            0x20_2020
        } else {
            0xd3_d3d3int
        },
        1 <= color / 0x100_0000 <= 255,
        opacity >= 100 ==> color / 0x100_0000 == 255,
        1 <= opacity <= 100 ==> -50 <= 100 * (color / 0x100_0000) - 255 * opacity <= 50,
        kind == 3 <==> enabled,
        kind == 1 <==> !enabled,
        accent == 4 <==> enabled,
        accent == 0 <==> !enabled,
{
}

/// A pop-up is neither activated by the mouse nor by a change of its place; an area is as large as the
/// distance of its edges.
pub proof fn law_a_popup_stays_inactive(
    message: u32,
    has_data: bool,
    reply: PopupReply,
    left: i32,
    top: i32,
    right: i32,
    bottom: i32,
    area: PhysicalRect,
)
    requires
        call_ensures(popup_window_proc, (message, has_data), reply),
        call_ensures(work_area_for_point, (left, top, right, bottom), area),
    ensures
        reply == PopupReply::Answer(3i64) <==> message == 33,
        reply is Restyle <==> message == 124 && has_data,
        reply is KeepInactive <==> message == 70 && has_data,
        reply is Detach <==> message == 130,
        area.x == left && area.y == top,
        i32::MIN <= right - left <= i32::MAX ==> area.width == right - left,
        i32::MIN <= bottom - top <= i32::MAX ==> area.height == bottom - top,
{
}

/// A pop-up has an owner only where both windows exist, and a call of the compositor went well where
/// its code is not negative. The focus goes to the window only from one that it owns.
pub proof fn law_windows_must_exist(
    popup: i64,
    owner: i64,
    popup_exists: bool,
    owner_exists: bool,
    attached: Result<(), IoError>,
    checked: Result<(), IoError>,
    call: &str,
    code: i32,
    composed: Result<(), IoError>,
    foreground: i64,
    foreground_owner: i64,
    focus: bool,
)
    requires
        call_ensures(attach_owner, (popup, owner, popup_exists, owner_exists), attached),
        call_ensures(check_popup, (popup, popup_exists), checked),
        call_ensures(compositor_result, (call, code), composed),
        call_ensures(focus_window, (popup, popup_exists, foreground, foreground_owner), focus),
    ensures
        attached is Ok <==> popup != 0 && owner != 0 && popup_exists && owner_exists,
        checked is Ok <==> popup != 0 && popup_exists,
        composed is Ok <==> code >= 0,
        focus <==> popup != 0 && popup_exists && foreground != popup && foreground_owner == popup,
{
}

} // verus!
