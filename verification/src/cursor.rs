//! The two-axis line-wrap cursor: how printing one character moves the
//! cell cursor, including the overflow checks that run after every
//! character.

use vstd::prelude::*;

verus! {

/// The cursor's 10x10-pixel cell footprint lies inside a frame of the
/// given pixel dimensions.
pub open spec fn cursor_ok(width: int, height: int, col: int, row: int) -> bool {
    &&& 0 <= col && col * 10 + 10 <= width
    &&& 0 <= row && row * 10 + 10 <= height
}

/// The overflow checks that run after every character, line breaks
/// included. When fewer than 10 pixels remain to the right of the
/// cursor's cell it moves to the start of the next row; when fewer than
/// 10 pixels then remain below its cell it moves back to the top row,
/// overwriting old output rather than scrolling.
pub open spec fn wrap_cursor(width: int, height: int, col: int, row: int) -> (int, int) {
    let col1 = if width - col * 10 < 10 {
        0
    } else {
        col
    };
    let row1 = if width - col * 10 < 10 {
        row + 1
    } else {
        row
    };
    let row2 = if height - row1 * 10 < 10 {
        0
    } else {
        row1
    };
    (col1, row2)
}

/// The cursor after one character is consumed: a line break moves to the
/// start of the next row and renders nothing, any other character is
/// rendered and advances one column; both are followed by the
/// unconditional overflow checks.
pub open spec fn cursor_step(width: int, height: int, col: int, row: int, c: char) -> (int, int) {
    if c == '\n' {
        wrap_cursor(width, height, 0, row + 1)
    } else {
        wrap_cursor(width, height, col + 1, row)
    }
}

/// On a frame at least one cell wide and tall, consuming a character
/// keeps the cursor's footprint inside the frame.
pub proof fn lemma_cursor_step_ok(width: int, height: int, col: int, row: int, c: char)
    requires
        width >= 10,
        height >= 10,
        cursor_ok(width, height, col, row),
    ensures
        cursor_ok(
            width,
            height,
            cursor_step(width, height, col, row, c).0,
            cursor_step(width, height, col, row, c).1,
        ),
{
}

} // verus!
