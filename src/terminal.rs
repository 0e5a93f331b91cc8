use vstd::prelude::*;

use crate::rects::{RectObject, WIDTH};
use crate::text::TextInfo;

verus! {

/// Cursor colour in the bright half of the blink cycle.
pub const COLORONE: [u8; 4] = [255, 255, 255, 255];

/// Cursor colour in the dim half of the blink cycle.
pub const COLORTWO: [u8; 4] = [60, 60, 60, 255];

/// Blink phase added per frame.
pub const BLINK_STEP: u8 = 5;

/// The pixel coordinate of a fixed-point pen coordinate, read as unsigned.
pub open spec fn pixel_of(v: i32) -> u32 {
    ((v as u32) / 64) as u32
}

/// Moves the cursor rectangle to the end of its text and sets its colour by
/// the blink phase `time`.
pub fn cursor_update(rect: &mut RectObject, info: &TextInfo, time: u8)
    ensures
        final(rect).x == pixel_of(info.max.0),
        final(rect).y == pixel_of(info.max.1),
        final(rect).w == old(rect).w,
        final(rect).h == old(rect).h,
        final(rect).color == (if time > 127 {
            COLORONE
        } else {
            COLORTWO
        }),
{
    rect.x = info.max.0 as u32 / 64;
    rect.y = info.max.1 as u32 / 64;
    if time > u8::MAX / 2 {
        rect.color = COLORONE;
    } else {
        rect.color = COLORTWO;
    }
}

/// The blink phase of the next frame, wrapping around.
pub fn blink_step(time: u8) -> (r: u8)
    ensures
        r == (time + BLINK_STEP) % 256,
{
    if time > u8::MAX - BLINK_STEP {
        time - (u8::MAX - BLINK_STEP) - 1
    } else {
        time + BLINK_STEP
    }
}

/// The pixel offset that brings a text whose pen ended below the line height
/// `fh` (fixed-point) back up, or `None` when it did not.
pub fn baseline_offset(max_y: i32, fh: i32) -> (r: Option<(i32, i32)>)
    requires
        0 <= fh,
    ensures
        max_y < fh ==> r == Some((0i32, ((fh - max_y) / 64) as i32)),
        max_y >= fh ==> r is None,
{
    if max_y < fh {
        Some((0, ((fh as i64 - max_y as i64) / 64) as i32))
    } else {
        None
    }
}

/// Which of the two side-by-side windows a scroll at column `x` moves.
pub fn scroll_target(x: i32) -> (r: usize)
    ensures
        r == (if x < WIDTH / 2 {
            0usize
        } else {
            1usize
        }),
{
    if x < (WIDTH / 2) as i32 {
        0
    } else {
        1
    }
}

} // verus!
