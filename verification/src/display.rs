//! The console state and its rendering surface: checked and unchecked
//! pixel writes, a checked pixel read, and whole-frame fill.

use vstd::prelude::*;
use vstd::arithmetic::div_mod::lemma_fundamental_div_mod_converse;
use vstd::string::StrSliceExecFns;
use crate::cursor::{cursor_step, lemma_cursor_step_ok};
use crate::geometry::{
    FrameInfo, PixelFormat, cell_geometry, info_valid, lemma_byte_recomposes,
    lemma_offset_decomposes, lemma_offset_in_bounds, pixel_offset,
};
use crate::glyphs::{cell_color, glyph_bits, glyph_on, lookup_glyph};
use crate::pixel::{
    cell_prefix, fill_prefix, filled_frame, lemma_cell_prefix_done, lemma_cell_prefix_empty,
    lemma_cell_prefix_step, lemma_fill_prefix_column, lemma_fill_prefix_done,
    lemma_fill_prefix_empty, lemma_fill_prefix_step, lemma_filled_frame_read, pixel_at,
    with_cell, with_pixel,
};

verus! {

/// Error returned by the checked pixel writer and reader when a coordinate
/// lies outside the frame.
#[derive(Debug)]
pub struct IndexOutOfRange;

/// Ghost image of the console state: the geometry, the buffer contents,
/// the cell cursor, and the two active colors.
pub struct ScreenState {
    pub info: FrameInfo,
    pub buffer: Seq<u8>,
    pub cursor_col: int,
    pub cursor_row: int,
    pub foreground: (u8, u8, u8),
    pub background: (u8, u8, u8),
}

/// The console: frame geometry, the backing byte buffer, the cell cursor,
/// and the active foreground and background colors.
#[derive(Debug)]
pub struct DisplayTextManager {
    pub frame_info: FrameInfo,
    pub buffer: Vec<u8>,
    pub cursor: (usize, usize),
    pub foreground_color: (u8, u8, u8),
    pub background_color: (u8, u8, u8),
}

impl View for DisplayTextManager {
    type V = ScreenState;

    open spec fn view(&self) -> ScreenState {
        ScreenState {
            info: self.frame_info,
            buffer: self.buffer@,
            cursor_col: self.cursor.0 as int,
            cursor_row: self.cursor.1 as int,
            foreground: self.foreground_color,
            background: self.background_color,
        }
    }
}

impl DisplayTextManager {
    /// The backing buffer matches the declared geometry, and the geometry
    /// itself is one a caller may render through.
    pub open spec fn wf(&self) -> bool {
        &&& info_valid(self.frame_info)
        &&& self.buffer@.len() == self.frame_info.byte_len
    }

    /// The cursor denotes a cell whose 10x10-pixel footprint lies inside
    /// the frame.
    pub open spec fn cursor_in_frame(&self) -> bool {
        &&& self.cursor.0 * 10 + 10 <= self.frame_info.width
        &&& self.cursor.1 * 10 + 10 <= self.frame_info.height
    }

    /// Unchecked pixel write: stores the three color bytes at the pixel's
    /// offset in blue, green, red order. The caller must have established
    /// that the coordinate is in bounds.
    pub(crate) fn set_pixel_uncheck(&mut self, position: (usize, usize), color_rgb: (u8, u8, u8))
        requires
            old(self).wf(),
            position.0 < old(self).frame_info.width,
            position.1 < old(self).frame_info.height,
        ensures
            final(self).wf(),
            final(self).frame_info == old(self).frame_info,
            final(self).cursor == old(self).cursor,
            final(self).foreground_color == old(self).foreground_color,
            final(self).background_color == old(self).background_color,
            final(self).buffer@ == with_pixel(
                old(self).buffer@,
                old(self).frame_info,
                position.0 as int,
                position.1 as int,
                color_rgb,
            ),
    {
        let x = position.0;
        let y = position.1;
        let info = self.frame_info;
        let ghost s = self.buffer@;
        proof {
            lemma_offset_in_bounds(info, x as int, y as int);
            assert((y * info.stride) * info.bytes_per_pixel
                == y * (info.stride * info.bytes_per_pixel)) by (nonlinear_arith);
            assert(y * info.stride <= (y * info.stride) * info.bytes_per_pixel)
                by (nonlinear_arith)
                requires info.bytes_per_pixel >= 1, y >= 0, info.stride >= 0;
        }
        let base: usize = y * info.stride * info.bytes_per_pixel + x * info.bytes_per_pixel;
        self.buffer[base] = color_rgb.2;
        self.buffer[base + 1] = color_rgb.1;
        self.buffer[base + 2] = color_rgb.0;
        proof {
            let w = with_pixel(s, info, x as int, y as int, color_rgb);
            assert(base == pixel_offset(info, x as int, y as int));
            lemma_offset_decomposes(info, x as int, y as int, 0);
            lemma_offset_decomposes(info, x as int, y as int, 1);
            lemma_offset_decomposes(info, x as int, y as int, 2);
            assert forall|i: int| 0 <= i < s.len() implies self.buffer@[i] == w[i] by {
                lemma_byte_recomposes(info, i);
            }
            assert(self.buffer@ =~= w);
        }
    }

    /// Checked pixel write: stores `color_rgb` at `position` when both
    /// coordinates are in bounds, and reports `IndexOutOfRange` without
    /// touching anything otherwise.
    pub fn set_pixel(&mut self, position: (usize, usize), color_rgb: (u8, u8, u8)) -> (r: Result<
        (),
        IndexOutOfRange,
    >)
        requires
            old(self).wf(),
        ensures
            final(self).wf(),
            r is Err <==> (position.0 >= old(self).frame_info.width
                || position.1 >= old(self).frame_info.height),
            r is Err ==> *final(self) == *old(self),
            r is Ok ==> final(self).buffer@ == with_pixel(
                old(self).buffer@,
                old(self).frame_info,
                position.0 as int,
                position.1 as int,
                color_rgb,
            ),
            final(self).frame_info == old(self).frame_info,
            final(self).cursor == old(self).cursor,
            final(self).foreground_color == old(self).foreground_color,
            final(self).background_color == old(self).background_color,
    {
        if position.0 >= self.frame_info.width || position.1 >= self.frame_info.height {
            return Err(IndexOutOfRange);
        }
        self.set_pixel_uncheck(position, color_rgb);
        Ok(())
    }

    /// Checked pixel read: returns the red, green, blue triple stored at
    /// `position`, or `IndexOutOfRange` when a coordinate is out of
    /// bounds.
    pub fn get_pixel(&self, position: (usize, usize)) -> (r: Result<(u8, u8, u8), IndexOutOfRange>)
        requires
            self.wf(),
        ensures
            r is Err <==> (position.0 >= self.frame_info.width
                || position.1 >= self.frame_info.height),
            r matches Ok(c) ==> c == pixel_at(
                self.buffer@,
                self.frame_info,
                position.0 as int,
                position.1 as int,
            ),
    {
        let x = position.0;
        let y = position.1;
        let info = self.frame_info;
        if x >= info.width || y >= info.height {
            return Err(IndexOutOfRange);
        }
        proof {
            lemma_offset_in_bounds(info, x as int, y as int);
            assert((y * info.stride) * info.bytes_per_pixel
                == y * (info.stride * info.bytes_per_pixel)) by (nonlinear_arith);
            assert(y * info.stride <= (y * info.stride) * info.bytes_per_pixel)
                by (nonlinear_arith)
                requires info.bytes_per_pixel >= 1, y >= 0, info.stride >= 0;
        }
        let base: usize = y * info.stride * info.bytes_per_pixel + x * info.bytes_per_pixel;
        Ok((self.buffer[base + 2], self.buffer[base + 1], self.buffer[base]))
    }

    /// Writes `color_rgb` to every pixel of the frame, walking columns
    /// outward and rows within each column through the unchecked path.
    /// The cursor and the active colors are left alone.
    pub fn fill(&mut self, color_rgb: (u8, u8, u8))
        requires
            old(self).wf(),
        ensures
            final(self).wf(),
            final(self).frame_info == old(self).frame_info,
            final(self).cursor == old(self).cursor,
            final(self).foreground_color == old(self).foreground_color,
            final(self).background_color == old(self).background_color,
            final(self).buffer@ == filled_frame(
                old(self).buffer@,
                old(self).frame_info,
                color_rgb,
            ),
            forall|x: int, y: int|
                0 <= x < old(self).frame_info.width && 0 <= y < old(self).frame_info.height
                    ==> #[trigger] pixel_at(final(self).buffer@, old(self).frame_info, x, y)
                        == color_rgb,
    {
        let info = self.frame_info;
        let ghost s0 = self.buffer@;
        let ghost cur = self.cursor;
        let ghost fg = self.foreground_color;
        let ghost bg = self.background_color;
        let w = info.width;
        let h = info.height;
        proof {
            if w > 0 && h > 0 {
                lemma_fill_prefix_empty(s0, info, color_rgb);
            }
        }
        for x in 0..w
            invariant
                self.wf(),
                self.frame_info == info,
                self.cursor == cur,
                self.foreground_color == fg,
                self.background_color == bg,
                w == info.width,
                h == info.height,
                w > 0 && h > 0 ==> self.buffer@ == fill_prefix(s0, info, color_rgb, x as int, 0),
                w == 0 || h == 0 ==> self.buffer@ == s0,
        {
            proof {
                if h > 0 {
                    assert(self.buffer@ == fill_prefix(s0, info, color_rgb, x as int, 0));
                }
            }
            for y in 0..h
                invariant
                    self.wf(),
                    self.frame_info == info,
                    self.cursor == cur,
                    self.foreground_color == fg,
                    self.background_color == bg,
                    w == info.width,
                    h == info.height,
                    x < w,
                    h > 0 ==> self.buffer@ == fill_prefix(s0, info, color_rgb, x as int, y as int),
                    h == 0 ==> self.buffer@ == s0,
            {
                proof {
                    lemma_fill_prefix_step(s0, info, color_rgb, x as int, y as int);
                }
                self.set_pixel_uncheck((x, y), color_rgb);
            }
            proof {
                if h > 0 {
                    lemma_fill_prefix_column(s0, info, color_rgb, x as int);
                }
            }
        }
        proof {
            if w > 0 && h > 0 {
                lemma_fill_prefix_done(s0, info, color_rgb);
            }
            lemma_filled_frame_read(s0, info, color_rgb);
        }
    }

    /// Renders the glyph cell for `c` with its top left corner at pixel
    /// `position`: the 8x8 bitmap (foreground where the bitmap is set,
    /// background elsewhere), two columns of background padding to its
    /// right, and two rows of background padding below, all through the
    /// unchecked pixel path. No bounds check is performed here; the
    /// caller must have placed the whole 10x10 footprint inside the
    /// frame.
    pub(crate) fn write_char_uncheck(
        &mut self,
        c: char,
        position: (usize, usize),
        foreground: (u8, u8, u8),
        background: (u8, u8, u8),
    )
        requires
            old(self).wf(),
            position.0 + 10 <= old(self).frame_info.width,
            position.1 + 10 <= old(self).frame_info.height,
        ensures
            final(self).wf(),
            final(self).frame_info == old(self).frame_info,
            final(self).cursor == old(self).cursor,
            final(self).foreground_color == old(self).foreground_color,
            final(self).background_color == old(self).background_color,
            final(self).buffer@ == with_cell(
                old(self).buffer@,
                old(self).frame_info,
                position.0 as int,
                position.1 as int,
                c,
                foreground,
                background,
            ),
    {
        let px = position.0;
        let py = position.1;
        let info = self.frame_info;
        let ghost s0 = self.buffer@;
        let ghost cur = self.cursor;
        let ghost fg0 = self.foreground_color;
        let ghost bg0 = self.background_color;
        let bits = lookup_glyph(c);
        proof {
            lemma_cell_prefix_empty(s0, info, px as int, py as int, c, foreground, background);
        }
        for y in 0..8usize
            invariant
                self.wf(),
                self.frame_info == info,
                self.cursor == cur,
                self.foreground_color == fg0,
                self.background_color == bg0,
                px + 10 <= info.width,
                py + 10 <= info.height,
                bits == glyph_bits(c),
                self.buffer@ == cell_prefix(
                    s0,
                    info,
                    px as int,
                    py as int,
                    c,
                    foreground,
                    background,
                    (y as int) * 10,
                ),
        {
            for x in 0..8usize
                invariant
                    self.wf(),
                    self.frame_info == info,
                    self.cursor == cur,
                    self.foreground_color == fg0,
                    self.background_color == bg0,
                    px + 10 <= info.width,
                    py + 10 <= info.height,
                    bits == glyph_bits(c),
                    y < 8,
                    self.buffer@ == cell_prefix(
                        s0,
                        info,
                        px as int,
                        py as int,
                        c,
                        foreground,
                        background,
                        (y as int) * 10 + (x as int),
                    ),
            {
                let sh: u64 = ((7 - y) * 8 + (7 - x)) as u64;
                let on: bool = ((bits >> sh) & 1) == 1;
                let color = if on {
                    foreground
                } else {
                    background
                };
                proof {
                    let n = (y as int) * 10 + (x as int);
                    lemma_fundamental_div_mod_converse(n, 10, y as int, x as int);
                    assert(on == glyph_on(c, x as int, y as int));
                    assert(cell_color(c, foreground, background, x as int, y as int) == color);
                    lemma_cell_prefix_step(s0, info, px as int, py as int, c, foreground,
                        background, n);
                }
                self.set_pixel_uncheck((px + x, py + y), color);
            }
            proof {
                let n = (y as int) * 10 + 8;
                lemma_fundamental_div_mod_converse(n, 10, y as int, 8);
                lemma_cell_prefix_step(s0, info, px as int, py as int, c, foreground, background,
                    n);
            }
            self.set_pixel_uncheck((px + 8, py + y), background);
            proof {
                let n = (y as int) * 10 + 9;
                lemma_fundamental_div_mod_converse(n, 10, y as int, 9);
                lemma_cell_prefix_step(s0, info, px as int, py as int, c, foreground, background,
                    n);
            }
            self.set_pixel_uncheck((px + 9, py + y), background);
        }
        for i in 0..2usize
            invariant
                self.wf(),
                self.frame_info == info,
                self.cursor == cur,
                self.foreground_color == fg0,
                self.background_color == bg0,
                px + 10 <= info.width,
                py + 10 <= info.height,
                self.buffer@ == cell_prefix(
                    s0,
                    info,
                    px as int,
                    py as int,
                    c,
                    foreground,
                    background,
                    80 + (i as int) * 10,
                ),
        {
            for x in 0..10usize
                invariant
                    self.wf(),
                    self.frame_info == info,
                    self.cursor == cur,
                    self.foreground_color == fg0,
                    self.background_color == bg0,
                    px + 10 <= info.width,
                    py + 10 <= info.height,
                    i < 2,
                    self.buffer@ == cell_prefix(
                        s0,
                        info,
                        px as int,
                        py as int,
                        c,
                        foreground,
                        background,
                        80 + (i as int) * 10 + (x as int),
                    ),
            {
                proof {
                    let n = (8 + i as int) * 10 + (x as int);
                    lemma_fundamental_div_mod_converse(n, 10, 8 + i as int, x as int);
                    lemma_cell_prefix_step(s0, info, px as int, py as int, c, foreground,
                        background, n);
                }
                self.set_pixel_uncheck((px + x, py + 8 + i), background);
            }
        }
        proof {
            lemma_cell_prefix_done(s0, info, px as int, py as int, c, foreground, background);
        }
    }

    /// Prints `text` one character at a time: a line break moves the
    /// cursor to the start of the next row and renders nothing, any
    /// other character renders its glyph cell at the cursor and advances
    /// one column. After every character, line breaks included, the
    /// horizontal and then the vertical overflow check runs; the exact
    /// order is part of the contract.
    pub fn print(&mut self, text: &str)
        requires
            old(self).wf(),
            cell_geometry(old(self).frame_info),
            old(self).cursor_in_frame(),
        ensures
            final(self).wf(),
            final(self).cursor_in_frame(),
            final(self)@ == state_after(old(self)@, text@),
    {
        let n = text.unicode_len();
        let ghost v0 = self@;
        for i in 0..n
            invariant
                self.wf(),
                cell_geometry(self.frame_info),
                self.cursor_in_frame(),
                n == text@.len(),
                self@ == state_after(v0, text@.take(i as int)),
        {
            let ghost vpre = self@;
            proof {
                assert(text@.take(i as int).push(text@[i as int]) =~= text@.take(i as int + 1));
                lemma_state_after_push(v0, text@.take(i as int), text@[i as int]);
            }
            let c = text.get_char(i);
            if c == '\n' {
                self.cursor.1 = self.cursor.1 + 1;
                self.cursor.0 = 0;
            } else {
                let pos = (self.cursor.0 * 10, self.cursor.1 * 10);
                self.write_char_uncheck(c, pos, self.foreground_color, self.background_color);
                self.cursor.0 = self.cursor.0 + 1;
            }
            if self.frame_info.width - self.cursor.0 * 10 < 10 {
                self.cursor.0 = 0;
                self.cursor.1 = self.cursor.1 + 1;
            }
            if self.frame_info.height - self.cursor.1 * 10 < 10 {
                self.cursor.1 = 0;
            }
            proof {
                lemma_cursor_step_ok(
                    self.frame_info.width as int,
                    self.frame_info.height as int,
                    vpre.cursor_col,
                    vpre.cursor_row,
                    c,
                );
                assert(self@ == state_step(vpre, c));
            }
        }
        proof {
            assert(text@.take(n as int) =~= text@);
        }
    }

    /// Sets the foreground color used by subsequent prints; nothing else
    /// changes.
    pub fn set_foreground_color(&mut self, color: (u8, u8, u8))
        ensures
            final(self).foreground_color == color,
            final(self).frame_info == old(self).frame_info,
            final(self).buffer@ == old(self).buffer@,
            final(self).cursor == old(self).cursor,
            final(self).background_color == old(self).background_color,
    {
        self.foreground_color = color;
    }

    /// Sets the background color used by subsequent prints; nothing else
    /// changes.
    pub fn set_background_color(&mut self, color: (u8, u8, u8))
        ensures
            final(self).background_color == color,
            final(self).frame_info == old(self).frame_info,
            final(self).buffer@ == old(self).buffer@,
            final(self).cursor == old(self).cursor,
            final(self).foreground_color == old(self).foreground_color,
    {
        self.background_color = color;
    }
}

/// The console state after one character of `text` is consumed: unless
/// the character is a line break its glyph cell is rendered at the
/// cursor's pixel position, and the cursor then steps with both overflow
/// checks.
pub open spec fn state_step(v: ScreenState, c: char) -> ScreenState {
    let buf = if c == '\n' {
        v.buffer
    } else {
        with_cell(
            v.buffer,
            v.info,
            v.cursor_col * 10,
            v.cursor_row * 10,
            c,
            v.foreground,
            v.background,
        )
    };
    let cur = cursor_step(v.info.width as int, v.info.height as int, v.cursor_col, v.cursor_row, c);
    ScreenState { buffer: buf, cursor_col: cur.0, cursor_row: cur.1, ..v }
}

/// The console state after the characters of `text` are consumed in
/// order.
pub open spec fn state_after(v: ScreenState, text: Seq<char>) -> ScreenState
    decreases text.len(),
{
    if text.len() <= 0 {
        v
    } else {
        state_after(state_step(v, text[0]), text.drop_first())
    }
}

/// Appending one character to the text steps the final state once more.
pub proof fn lemma_state_after_push(v: ScreenState, s: Seq<char>, c: char)
    ensures
        state_after(v, s.push(c)) == state_step(state_after(v, s), c),
    decreases s.len(),
{
    if s.len() == 0 {
        assert(s.push(c)[0] == c);
        assert(s.push(c).drop_first() =~= Seq::<char>::empty());
        assert(state_after(v, s.push(c)) == state_after(state_step(v, c), Seq::<char>::empty()));
        assert(state_after(state_step(v, c), Seq::<char>::empty()) == state_step(v, c));
        assert(state_after(v, s) == v);
    } else {
        assert(s.push(c)[0] == s[0]);
        assert(s.push(c).drop_first() =~= s.drop_first().push(c));
        lemma_state_after_push(state_step(v, s[0]), s.drop_first(), c);
        assert(state_after(v, s.push(c)) == state_after(
            state_step(v, s[0]),
            s.drop_first().push(c),
        ));
        assert(state_after(v, s) == state_after(state_step(v, s[0]), s.drop_first()));
    }
}

/// Installs a framebuffer: the entire console state is replaced by the
/// given geometry and buffer with the cursor at the origin and white
/// foreground on black background. Calling it again fully replaces the
/// previous state; nothing is merged across calls.
pub fn init(state: &mut DisplayTextManager, info: FrameInfo, buffer: Vec<u8>)
    requires
        info_valid(info),
        buffer@.len() == info.byte_len,
    ensures
        final(state).wf(),
        final(state).frame_info == info,
        final(state).buffer@ == buffer@,
        final(state).cursor == (0usize, 0usize),
        final(state).foreground_color == (255u8, 255u8, 255u8),
        final(state).background_color == (0u8, 0u8, 0u8),
{
    *state = DisplayTextManager {
        frame_info: info,
        buffer,
        cursor: (0, 0),
        foreground_color: (255, 255, 255),
        background_color: (0, 0, 0),
    };
}

impl Default for DisplayTextManager {
    /// The sentinel state before initialization: zero geometry, no
    /// buffer, cursor at the origin, white foreground on black
    /// background. Rendering in this state is impossible; `init`
    /// installs a real framebuffer.
    fn default() -> (d: Self)
        ensures
            d.wf(),
            d.frame_info == (FrameInfo {
                width: 0,
                height: 0,
                stride: 0,
                bytes_per_pixel: 0,
                byte_len: 0,
                pixel_format: PixelFormat::U8,
            }),
            d.buffer@ == Seq::<u8>::empty(),
            d.cursor == (0usize, 0usize),
            d.foreground_color == (255u8, 255u8, 255u8),
            d.background_color == (0u8, 0u8, 0u8),
    {
        DisplayTextManager {
            frame_info: FrameInfo {
                width: 0,
                height: 0,
                stride: 0,
                bytes_per_pixel: 0,
                byte_len: 0,
                pixel_format: PixelFormat::U8,
            },
            buffer: Vec::new(),
            cursor: (0, 0),
            foreground_color: (255, 255, 255),
            background_color: (0, 0, 0),
        }
    }
}

} // verus!
