//! Byte-buffer views of pixel writes: what one stored pixel, and a whole
//! filled frame, look like as functions on the buffer contents.

use vstd::prelude::*;
use vstd::arithmetic::div_mod::lemma_fundamental_div_mod_converse;
use crate::geometry::{
    FrameInfo, byte_chan, byte_col, byte_row, info_valid, lemma_byte_recomposes,
    lemma_offset_decomposes, lemma_offset_in_bounds, pixel_offset,
};
use crate::glyphs::cell_color;

verus! {

/// Byte stored at channel `k` of a pixel holding `color`: the writer uses
/// blue, green, red order, so channel 0 is blue, 1 is green, 2 is red.
pub open spec fn channel_byte(color: (u8, u8, u8), k: int) -> u8 {
    if k == 0 {
        color.2
    } else if k == 1 {
        color.1
    } else {
        color.0
    }
}

/// The color of the pixel at column `x`, row `y`, read back as a red,
/// green, blue triple from the blue, green, red bytes at its offset.
pub open spec fn pixel_at(s: Seq<u8>, info: FrameInfo, x: int, y: int) -> (u8, u8, u8) {
    (
        s[pixel_offset(info, x, y) + 2],
        s[pixel_offset(info, x, y) + 1],
        s[pixel_offset(info, x, y)],
    )
}

/// The buffer after the three color bytes of the pixel at `(x, y)` are
/// stored; every other byte keeps its value.
pub open spec fn with_pixel(
    s: Seq<u8>,
    info: FrameInfo,
    x: int,
    y: int,
    color: (u8, u8, u8),
) -> Seq<u8> {
    Seq::new(
        s.len(),
        |i: int|
            if byte_col(info, i) == x && byte_row(info, i) == y && byte_chan(info, i) < 3 {
                channel_byte(color, byte_chan(info, i))
            } else {
                s[i]
            },
    )
}

/// The buffer after every pixel of the frame is stored as `color`. Bytes
/// outside the frame's pixels (scanline padding past `width`, pixel bytes
/// past the three color channels, anything below the last scanline) keep
/// their value, and a frame with no pixels leaves the buffer unchanged.
pub open spec fn filled_frame(s: Seq<u8>, info: FrameInfo, color: (u8, u8, u8)) -> Seq<u8> {
    if info.width == 0 || info.height == 0 {
        s
    } else {
        Seq::new(
            s.len(),
            |i: int|
                if byte_col(info, i) < info.width && byte_row(info, i) < info.height
                    && byte_chan(info, i) < 3 {
                    channel_byte(color, byte_chan(info, i))
                } else {
                    s[i]
                },
        )
    }
}

/// The buffer part way through a fill that walks columns outward and rows
/// within a column: columns before `x` are fully stored, and in column `x`
/// the rows before `y` are stored.
pub open spec fn fill_prefix(
    s: Seq<u8>,
    info: FrameInfo,
    color: (u8, u8, u8),
    x: int,
    y: int,
) -> Seq<u8> {
    Seq::new(
        s.len(),
        |i: int|
            if byte_chan(info, i) < 3 && byte_row(info, i) < info.height
                && (byte_col(info, i) < x || (byte_col(info, i) == x && byte_row(info, i) < y)) {
                channel_byte(color, byte_chan(info, i))
            } else {
                s[i]
            },
    )
}

/// Storing one pixel reads back as its color, and leaves every other
/// in-bounds pixel reading as before.
pub proof fn lemma_with_pixel_read(
    s: Seq<u8>,
    info: FrameInfo,
    x: int,
    y: int,
    color: (u8, u8, u8),
)
    requires
        info_valid(info),
        s.len() == info.byte_len,
        0 <= x < info.width,
        0 <= y < info.height,
    ensures
        pixel_at(with_pixel(s, info, x, y, color), info, x, y) == color,
        forall|x2: int, y2: int|
            0 <= x2 < info.width && 0 <= y2 < info.height && (x2, y2) != (x, y)
                ==> #[trigger] pixel_at(with_pixel(s, info, x, y, color), info, x2, y2)
                    == pixel_at(s, info, x2, y2),
{
    let t = with_pixel(s, info, x, y, color);
    lemma_offset_in_bounds(info, x, y);
    lemma_offset_decomposes(info, x, y, 0);
    lemma_offset_decomposes(info, x, y, 1);
    lemma_offset_decomposes(info, x, y, 2);
    assert(pixel_at(t, info, x, y) == color);
    assert forall|x2: int, y2: int|
        0 <= x2 < info.width && 0 <= y2 < info.height && (x2, y2) != (x, y)
            implies #[trigger] pixel_at(t, info, x2, y2) == pixel_at(s, info, x2, y2) by {
        lemma_offset_in_bounds(info, x2, y2);
        lemma_offset_decomposes(info, x2, y2, 0);
        lemma_offset_decomposes(info, x2, y2, 1);
        lemma_offset_decomposes(info, x2, y2, 2);
    }
}

/// A fill that has not stored anything yet leaves the buffer as it was.
pub proof fn lemma_fill_prefix_empty(s: Seq<u8>, info: FrameInfo, color: (u8, u8, u8))
    requires
        info_valid(info),
        info.width > 0,
        info.height > 0,
    ensures
        fill_prefix(s, info, color, 0, 0) == s,
{
    assert forall|i: int| 0 <= i < s.len()
        implies fill_prefix(s, info, color, 0, 0)[i] == s[i] by {
        lemma_byte_recomposes(info, i);
    }
    assert(fill_prefix(s, info, color, 0, 0) =~= s);
}

/// Storing the pixel at `(x, y)` advances the fill prefix by one row.
pub proof fn lemma_fill_prefix_step(
    s: Seq<u8>,
    info: FrameInfo,
    color: (u8, u8, u8),
    x: int,
    y: int,
)
    requires
        info_valid(info),
        0 <= x < info.width,
        0 <= y < info.height,
    ensures
        with_pixel(fill_prefix(s, info, color, x, y), info, x, y, color)
            == fill_prefix(s, info, color, x, y + 1),
{
    let p = fill_prefix(s, info, color, x, y);
    let q = fill_prefix(s, info, color, x, y + 1);
    assert forall|i: int| 0 <= i < s.len()
        implies with_pixel(p, info, x, y, color)[i] == q[i] by {
        lemma_byte_recomposes(info, i);
    }
    assert(with_pixel(p, info, x, y, color) =~= q);
}

/// Finishing a column of the fill is the same as standing at the top of
/// the next column.
pub proof fn lemma_fill_prefix_column(s: Seq<u8>, info: FrameInfo, color: (u8, u8, u8), x: int)
    requires
        info_valid(info),
        0 <= x < info.width,
        info.height > 0,
    ensures
        fill_prefix(s, info, color, x, info.height as int)
            == fill_prefix(s, info, color, x + 1, 0),
{
    let p = fill_prefix(s, info, color, x, info.height as int);
    let q = fill_prefix(s, info, color, x + 1, 0);
    assert forall|i: int| 0 <= i < s.len() implies p[i] == q[i] by {
        lemma_byte_recomposes(info, i);
    }
    assert(p =~= q);
}

/// After the last column the fill prefix is the fully filled frame.
pub proof fn lemma_fill_prefix_done(s: Seq<u8>, info: FrameInfo, color: (u8, u8, u8))
    requires
        info_valid(info),
        info.width > 0,
        info.height > 0,
    ensures
        fill_prefix(s, info, color, info.width as int, 0) == filled_frame(s, info, color),
{
    let p = fill_prefix(s, info, color, info.width as int, 0);
    let q = filled_frame(s, info, color);
    assert forall|i: int| 0 <= i < s.len() implies p[i] == q[i] by {
        lemma_byte_recomposes(info, i);
    }
    assert(p =~= q);
}

/// The buffer after the 10x10 cell with its top left corner at pixel
/// `(px, py)` shows the glyph for `c` in `fg` on `bg`; every byte outside
/// the cell's pixels keeps its value.
pub open spec fn with_cell(
    s: Seq<u8>,
    info: FrameInfo,
    px: int,
    py: int,
    c: char,
    fg: (u8, u8, u8),
    bg: (u8, u8, u8),
) -> Seq<u8> {
    Seq::new(
        s.len(),
        |i: int|
            if px <= byte_col(info, i) < px + 10 && py <= byte_row(info, i) < py + 10
                && byte_chan(info, i) < 3 {
                channel_byte(
                    cell_color(c, fg, bg, byte_col(info, i) - px, byte_row(info, i) - py),
                    byte_chan(info, i),
                )
            } else {
                s[i]
            },
    )
}

/// The buffer part way through blitting a cell whose pixels are written
/// in reading order: of the 100 cell pixels, those whose reading-order
/// index `(dy * 10 + dx)` is below `n` are stored.
pub open spec fn cell_prefix(
    s: Seq<u8>,
    info: FrameInfo,
    px: int,
    py: int,
    c: char,
    fg: (u8, u8, u8),
    bg: (u8, u8, u8),
    n: int,
) -> Seq<u8> {
    Seq::new(
        s.len(),
        |i: int|
            if px <= byte_col(info, i) < px + 10 && py <= byte_row(info, i) < py + 10
                && byte_chan(info, i) < 3
                && (byte_row(info, i) - py) * 10 + (byte_col(info, i) - px) < n {
                channel_byte(
                    cell_color(c, fg, bg, byte_col(info, i) - px, byte_row(info, i) - py),
                    byte_chan(info, i),
                )
            } else {
                s[i]
            },
    )
}

/// A blit that has not stored anything yet leaves the buffer as it was.
pub proof fn lemma_cell_prefix_empty(
    s: Seq<u8>,
    info: FrameInfo,
    px: int,
    py: int,
    c: char,
    fg: (u8, u8, u8),
    bg: (u8, u8, u8),
)
    ensures
        cell_prefix(s, info, px, py, c, fg, bg, 0) == s,
{
    let p = cell_prefix(s, info, px, py, c, fg, bg, 0);
    assert forall|i: int| 0 <= i < s.len() implies p[i] == s[i] by {}
    assert(p =~= s);
}

/// Storing pixel `n` of the cell, in reading order, advances the blit
/// prefix by one pixel.
pub proof fn lemma_cell_prefix_step(
    s: Seq<u8>,
    info: FrameInfo,
    px: int,
    py: int,
    c: char,
    fg: (u8, u8, u8),
    bg: (u8, u8, u8),
    n: int,
)
    requires
        info_valid(info),
        info.width > 0,
        info.height > 0,
        0 <= px,
        0 <= py,
        0 <= n < 100,
    ensures
        with_pixel(
            cell_prefix(s, info, px, py, c, fg, bg, n),
            info,
            px + n % 10,
            py + n / 10,
            cell_color(c, fg, bg, n % 10, n / 10),
        ) == cell_prefix(s, info, px, py, c, fg, bg, n + 1),
{
    let p = cell_prefix(s, info, px, py, c, fg, bg, n);
    let q = cell_prefix(s, info, px, py, c, fg, bg, n + 1);
    let dx = n % 10;
    let dy = n / 10;
    let t = with_pixel(p, info, px + dx, py + dy, cell_color(c, fg, bg, dx, dy));
    assert(n == dy * 10 + dx && 0 <= dx < 10 && 0 <= dy < 10) by (nonlinear_arith)
        requires 0 <= n < 100, dx == n % 10, dy == n / 10;
    assert forall|i: int| 0 <= i < s.len() implies t[i] == q[i] by {
        lemma_byte_recomposes(info, i);
        let col = byte_col(info, i);
        let row = byte_row(info, i);
        if px <= col < px + 10 && py <= row < py + 10 {
            if (row - py) * 10 + (col - px) == n {
                lemma_fundamental_div_mod_converse(n, 10, row - py, col - px);
            }
        }
    }
    assert(t =~= q);
}

/// After all 100 pixels the blit prefix is the fully drawn cell.
pub proof fn lemma_cell_prefix_done(
    s: Seq<u8>,
    info: FrameInfo,
    px: int,
    py: int,
    c: char,
    fg: (u8, u8, u8),
    bg: (u8, u8, u8),
)
    ensures
        cell_prefix(s, info, px, py, c, fg, bg, 100) == with_cell(s, info, px, py, c, fg, bg),
{
    let p = cell_prefix(s, info, px, py, c, fg, bg, 100);
    let q = with_cell(s, info, px, py, c, fg, bg);
    assert forall|i: int| 0 <= i < s.len() implies p[i] == q[i] by {}
    assert(p =~= q);
}

/// A drawn cell reads back pixel by pixel as the cell's colors, and every
/// in-bounds pixel outside the cell reads as before.
pub proof fn lemma_with_cell_read(
    s: Seq<u8>,
    info: FrameInfo,
    px: int,
    py: int,
    c: char,
    fg: (u8, u8, u8),
    bg: (u8, u8, u8),
)
    requires
        info_valid(info),
        s.len() == info.byte_len,
        0 <= px,
        0 <= py,
        px + 10 <= info.width,
        py + 10 <= info.height,
    ensures
        forall|dx: int, dy: int|
            0 <= dx < 10 && 0 <= dy < 10
                ==> #[trigger] pixel_at(with_cell(s, info, px, py, c, fg, bg), info, px + dx, py + dy)
                    == cell_color(c, fg, bg, dx, dy),
        forall|x: int, y: int|
            0 <= x < info.width && 0 <= y < info.height
                && !(px <= x < px + 10 && py <= y < py + 10)
                ==> #[trigger] pixel_at(with_cell(s, info, px, py, c, fg, bg), info, x, y)
                    == pixel_at(s, info, x, y),
{
    let t = with_cell(s, info, px, py, c, fg, bg);
    assert forall|dx: int, dy: int| 0 <= dx < 10 && 0 <= dy < 10
        implies #[trigger] pixel_at(t, info, px + dx, py + dy) == cell_color(c, fg, bg, dx, dy) by {
        lemma_offset_in_bounds(info, px + dx, py + dy);
        lemma_offset_decomposes(info, px + dx, py + dy, 0);
        lemma_offset_decomposes(info, px + dx, py + dy, 1);
        lemma_offset_decomposes(info, px + dx, py + dy, 2);
    }
    assert forall|x: int, y: int|
        0 <= x < info.width && 0 <= y < info.height
            && !(px <= x < px + 10 && py <= y < py + 10)
            implies #[trigger] pixel_at(t, info, x, y) == pixel_at(s, info, x, y) by {
        lemma_offset_in_bounds(info, x, y);
        lemma_offset_decomposes(info, x, y, 0);
        lemma_offset_decomposes(info, x, y, 1);
        lemma_offset_decomposes(info, x, y, 2);
    }
}

/// Every in-bounds pixel of a filled frame reads back as the fill color.
pub proof fn lemma_filled_frame_read(s: Seq<u8>, info: FrameInfo, color: (u8, u8, u8))
    requires
        info_valid(info),
        s.len() == info.byte_len,
    ensures
        forall|x: int, y: int|
            0 <= x < info.width && 0 <= y < info.height
                ==> #[trigger] pixel_at(filled_frame(s, info, color), info, x, y) == color,
{
    assert forall|x: int, y: int| 0 <= x < info.width && 0 <= y < info.height
        implies #[trigger] pixel_at(filled_frame(s, info, color), info, x, y) == color by {
        lemma_offset_in_bounds(info, x, y);
        lemma_offset_decomposes(info, x, y, 0);
        lemma_offset_decomposes(info, x, y, 1);
        lemma_offset_decomposes(info, x, y, 2);
    }
}

} // verus!
