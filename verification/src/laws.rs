//! Laws relating the console's operations, stated over the same spec
//! functions the operation contracts use.

use vstd::prelude::*;
use crate::cursor::{cursor_ok, cursor_step};
use crate::display::{ScreenState, state_step};
use crate::geometry::info_valid;
use crate::glyphs::{cell_color, glyph_on, has_glyph, lemma_fallback_glyph};
use crate::pixel::{lemma_with_cell_read, pixel_at, with_cell};

verus! {

/// Printing a single line break renders nothing: the buffer is untouched,
/// and the cursor moves to the start of the next row before the two
/// overflow checks run.
pub proof fn lemma_line_break_renders_nothing(v: ScreenState)
    ensures
        state_step(v, '\n').buffer == v.buffer,
        (state_step(v, '\n').cursor_col, state_step(v, '\n').cursor_row) == cursor_step(
            v.info.width as int,
            v.info.height as int,
            v.cursor_col,
            v.cursor_row,
            '\n',
        ),
{
}

/// Printing a character absent from the glyph table renders the fallback
/// block: a fully foreground-colored 8x8 body with the usual background
/// padding on the two rightmost columns and two bottom rows of its cell.
pub proof fn lemma_unmapped_char_renders_solid(v: ScreenState, c: char)
    requires
        !has_glyph(c),
        c != '\n',
        info_valid(v.info),
        v.buffer.len() == v.info.byte_len,
        cursor_ok(v.info.width as int, v.info.height as int, v.cursor_col, v.cursor_row),
    ensures
        forall|dx: int, dy: int|
            0 <= dx < 8 && 0 <= dy < 8
                ==> #[trigger] pixel_at(
                    state_step(v, c).buffer,
                    v.info,
                    v.cursor_col * 10 + dx,
                    v.cursor_row * 10 + dy,
                ) == v.foreground,
        forall|dx: int, dy: int|
            0 <= dx < 10 && 0 <= dy < 10 && (dx >= 8 || dy >= 8)
                ==> #[trigger] pixel_at(
                    state_step(v, c).buffer,
                    v.info,
                    v.cursor_col * 10 + dx,
                    v.cursor_row * 10 + dy,
                ) == v.background,
{
    let px = v.cursor_col * 10;
    let py = v.cursor_row * 10;
    lemma_fallback_glyph(c);
    lemma_with_cell_read(v.buffer, v.info, px, py, c, v.foreground, v.background);
    assert(state_step(v, c).buffer == with_cell(
        v.buffer,
        v.info,
        px,
        py,
        c,
        v.foreground,
        v.background,
    ));
    assert forall|dx: int, dy: int| 0 <= dx < 8 && 0 <= dy < 8
        implies #[trigger] pixel_at(
            state_step(v, c).buffer,
            v.info,
            v.cursor_col * 10 + dx,
            v.cursor_row * 10 + dy,
        ) == v.foreground by {
        assert(pixel_at(
            with_cell(v.buffer, v.info, px, py, c, v.foreground, v.background),
            v.info,
            px + dx,
            py + dy,
        ) == cell_color(c, v.foreground, v.background, dx, dy));
        assert(glyph_on(c, dx, dy));
    }
    assert forall|dx: int, dy: int| 0 <= dx < 10 && 0 <= dy < 10 && (dx >= 8 || dy >= 8)
        implies #[trigger] pixel_at(
            state_step(v, c).buffer,
            v.info,
            v.cursor_col * 10 + dx,
            v.cursor_row * 10 + dy,
        ) == v.background by {
        assert(pixel_at(
            with_cell(v.buffer, v.info, px, py, c, v.foreground, v.background),
            v.info,
            px + dx,
            py + dy,
        ) == cell_color(c, v.foreground, v.background, dx, dy));
    }
}

} // verus!
