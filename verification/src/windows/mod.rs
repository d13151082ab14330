//! The parts of the Windows layer, and the rules for its main window.
use vstd::prelude::*;

use crate::errors;
use crate::errors::{ErrorKind, IoError};

pub mod address_path;
pub mod atomic_file;
pub mod clipboard;
pub mod context_menu;
pub mod copy_file;
pub mod data_format;
pub mod directory_watch;
pub mod drag_drop;
pub mod drives;
pub mod everything;
pub mod file_operation;
pub mod free_name;
pub mod launch_probe;
pub mod libraries;
pub mod network;
pub mod path_relation;
pub mod quick_access;
pub mod quick_menu_window;
pub mod registry_value;
pub mod shell_icons;
pub mod shell_integration;
pub mod shell_select_probe;
pub mod shell_select_trap;
pub mod shortcut;

verus! {

/// A window that is not there is refused.
pub open spec fn window_missing(error: IoError) -> bool {
    errors::fails_with(error, ErrorKind::InvalidInput, "main window handle is not available"@)
}

/// Whether a window can be moved.
pub fn move_window(hwnd: i64) -> (result: Result<(), IoError>)
    ensures
        result is Ok <==> hwnd != 0,
        result matches Err(error) ==> window_missing(error),
{
    if hwnd == 0 {
        Err(IoError::new(ErrorKind::InvalidInput, "main window handle is not available"))
    } else {
        Ok(())
    }
}

/// A screen position in one number: the row above the column, sixteen bits each.
pub open spec fn packed_position(x: int, y: int) -> int {
    (y % 0x1_0000) * 0x1_0000 + x % 0x1_0000
}

/// The position to send with the message that begins to drag a window by its title.
pub fn begin_window_drag(hwnd: i64, x: i32, y: i32) -> (result: Result<i64, IoError>)
    ensures
        result is Ok <==> hwnd != 0,
        result matches Ok(position) ==> position == packed_position(x as int, y as int),
        result matches Err(error) ==> window_missing(error),
{
    if hwnd == 0 {
        return Err(IoError::new(ErrorKind::InvalidInput, "main window handle is not available"));
    }
    let column: u32 = low_half(x);
    let row: u32 = low_half(y);
    Ok((row * 0x1_0000 + column) as i64)
}

fn low_half(value: i32) -> (half: u32)
    ensures
        half == value as int % 0x1_0000,
{
    if value >= 0 {
        value as u32 % 0x1_0000
    } else {
        let below: i64 = value as i64 + 0x1_0000_0000;
        (below % 0x1_0000) as u32
    }
}

/// Whether a window has the pointer, given the window that has it.
pub fn has_pointer_capture(hwnd: i64, captured: i64) -> (has: bool)
    ensures
        has == (hwnd != 0 && captured == hwnd),
{
    hwnd != 0 && captured == hwnd
}

/// The place of a window's client area on the screen, given its width and height and the place of
/// its corner.
pub fn client_screen_rect(hwnd: i64, client: (i32, i32), origin: (i32, i32)) -> (result: Result<
    (i32, i32, i32, i32),
    IoError,
>)
    requires
        i32::MIN <= origin.0 + client.0 <= i32::MAX,
        i32::MIN <= origin.1 + client.1 <= i32::MAX,
    ensures
        match result {
            Ok(rect) => {
                &&& hwnd != 0
                &&& rect.0 == origin.0
                &&& rect.1 == origin.1
                &&& rect.2 == origin.0 + client.0
                &&& rect.3 == origin.1 + client.1
            },
            Err(error) => hwnd == 0 && errors::fails_with(
                error,
                ErrorKind::InvalidInput,
                "window handle is unavailable"@,
            ),
        },
{
    if hwnd == 0 {
        return Err(IoError::new(ErrorKind::InvalidInput, "window handle is unavailable"));
    }
    Ok((origin.0, origin.1, origin.0 + client.0, origin.1 + client.1))
}

/// A window without a handle is neither moved nor dragged; a position is packed so that its low half
/// is the column and its high half the row, and the area of a window starts at its origin and is as
/// large as the window.
pub proof fn law_positions_are_packed(
    hwnd: i64,
    x: i32,
    y: i32,
    moved: Result<(), IoError>,
    dragged: Result<i64, IoError>,
    client: (i32, i32),
    origin: (i32, i32),
    area: Result<(i32, i32, i32, i32), IoError>,
    captured: i64,
    has: bool,
)
    requires
        i32::MIN <= origin.0 + client.0 <= i32::MAX,
        i32::MIN <= origin.1 + client.1 <= i32::MAX,
        call_ensures(move_window, (hwnd,), moved),
        call_ensures(begin_window_drag, (hwnd, x, y), dragged),
        call_ensures(client_screen_rect, (hwnd, client, origin), area),
        call_ensures(has_pointer_capture, (hwnd, captured), has),
    ensures
        moved is Ok <==> hwnd != 0,
        dragged is Ok <==> hwnd != 0,
        dragged matches Ok(position) ==> 0 <= position < 0x1_0000_0000 && position % 0x1_0000 == x
            % 0x1_0000 && position / 0x1_0000 == y % 0x1_0000,
        area is Ok <==> hwnd != 0,
        area matches Ok((left, top, right, bottom)) ==> left == origin.0 && top == origin.1 && right
            - left == client.0 && bottom - top == client.1,
        has <==> hwnd != 0 && hwnd == captured,
{
}

} // verus!
