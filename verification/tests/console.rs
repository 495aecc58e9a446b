use display_text::DisplayTextManager;
use display_text::FrameInfo;
use display_text::PixelFormat;
use display_text::init;

fn frame(width: usize, height: usize, stride: usize, bpp: usize) -> FrameInfo {
    FrameInfo {
        width,
        height,
        stride,
        bytes_per_pixel: bpp,
        byte_len: stride * bpp * height,
        pixel_format: PixelFormat::Bgr,
    }
}

fn console(info: FrameInfo) -> DisplayTextManager {
    let mut m = DisplayTextManager::default();
    let buffer = vec![0u8; info.byte_len];
    init(&mut m, info, buffer);
    m
}

#[test]
fn set_then_get_returns_stored_color() {
    let mut m = console(frame(100, 20, 100, 3));
    m.set_pixel((3, 4), (10, 20, 30)).unwrap();
    assert_eq!(m.get_pixel((3, 4)).unwrap(), (10, 20, 30));
    let base = 4 * 100 * 3 + 3 * 3;
    assert_eq!(m.buffer[base], 30, "blue byte first");
    assert_eq!(m.buffer[base + 1], 20, "green byte second");
    assert_eq!(m.buffer[base + 2], 10, "red byte third");
}

#[test]
fn set_pixel_rejects_out_of_range() {
    let mut m = console(frame(100, 20, 100, 3));
    assert!(m.set_pixel((100, 0), (1, 2, 3)).is_err());
    assert!(m.set_pixel((0, 20), (1, 2, 3)).is_err());
    assert!(m.set_pixel((100, 20), (1, 2, 3)).is_err());
    assert!(m.set_pixel((1000, 3), (1, 2, 3)).is_err());
    assert!(m.set_pixel((2, 1000), (1, 2, 3)).is_err());
    assert!(m.set_pixel((99, 19), (1, 2, 3)).is_ok());
    assert!(m.set_pixel((0, 0), (1, 2, 3)).is_ok());
}

#[test]
fn get_pixel_rejects_out_of_range() {
    let m = console(frame(100, 20, 100, 3));
    assert!(m.get_pixel((100, 0)).is_err());
    assert!(m.get_pixel((0, 20)).is_err());
    assert!(m.get_pixel((99, 19)).is_ok());
}

#[test]
fn fill_colors_every_pixel() {
    // A stride wider than the frame and four bytes per pixel, so the fill
    // must leave the scanline padding and the fourth pixel byte alone.
    let mut m = console(frame(12, 9, 14, 4));
    m.fill((7, 8, 9));
    for x in 0..12 {
        for y in 0..9 {
            assert_eq!(m.get_pixel((x, y)).unwrap(), (7, 8, 9));
        }
    }
    // Fourth byte of the pixel at (0, 0) is untouched.
    assert_eq!(m.buffer[3], 0);
    // First byte of the padding column past the frame width is untouched.
    assert_eq!(m.buffer[12 * 4], 0);
}

#[test]
fn ten_chars_wrap_to_second_row() {
    // 100 x 20 pixels is 10 columns by 2 rows of cells; the tenth
    // character triggers the horizontal wrap exactly once.
    let mut m = console(frame(100, 20, 100, 3));
    m.print("aaaaaaaaa");
    assert_eq!(m.cursor, (9, 0));
    m.print("a");
    assert_eq!(m.cursor, (0, 1));
}

#[test]
fn twenty_chars_wrap_back_to_top() {
    let mut m = console(frame(100, 20, 100, 3));
    m.print("aaaaaaaaaaaaaaaaaaaa");
    assert_eq!(m.cursor, (0, 0));
    // The top left cell shows 'a', whose top bitmap row is background:
    // the pixel at (0, 1) is foreground ('a' has a set bit there).
    assert_eq!(m.get_pixel((0, 0)).unwrap(), (0, 0, 0));
    assert_eq!(m.get_pixel((0, 1)).unwrap(), (255, 255, 255));
    // Printing once more overwrites the top row rather than scrolling:
    // 'b' has a foreground pixel at (0, 0) where 'a' had background.
    m.print("b");
    assert_eq!(m.cursor, (1, 0));
    assert_eq!(m.get_pixel((0, 0)).unwrap(), (255, 255, 255));
}

#[test]
fn line_break_moves_cursor_and_renders_nothing() {
    let mut m = console(frame(100, 20, 100, 3));
    m.fill((9, 9, 9));
    let before = m.buffer.clone();
    m.print("\n");
    assert_eq!(m.cursor, (0, 1));
    assert_eq!(m.buffer, before);
}

#[test]
fn line_break_at_last_row_wraps_to_top() {
    let mut m = console(frame(100, 20, 100, 3));
    m.print("\n");
    assert_eq!(m.cursor, (0, 1));
    m.print("\n");
    assert_eq!(m.cursor, (0, 0));
}

#[test]
fn width_of_one_cell_wraps_after_every_char() {
    let mut m = console(frame(10, 30, 10, 3));
    m.print("a");
    assert_eq!(m.cursor, (0, 1));
}

#[test]
fn unmapped_char_renders_fallback_block() {
    let mut m = console(frame(100, 20, 100, 3));
    m.print("?");
    for dx in 0..10 {
        for dy in 0..10 {
            let expected = if dx < 8 && dy < 8 {
                (255, 255, 255)
            } else {
                (0, 0, 0)
            };
            assert_eq!(m.get_pixel((dx, dy)).unwrap(), expected);
        }
    }
}

#[test]
fn glyph_a_bitmap_is_exact() {
    let rows: [u8; 8] = [0x00, 0xfe, 0x01, 0x01, 0x7f, 0x81, 0x83, 0x7d];
    let mut m = console(frame(100, 20, 100, 3));
    m.print("a");
    for (dy, row) in rows.iter().enumerate() {
        for dx in 0..8 {
            let on = (row >> (7 - dx)) & 1 == 1;
            let expected = if on { (255, 255, 255) } else { (0, 0, 0) };
            assert_eq!(m.get_pixel((dx, dy)).unwrap(), expected, "at {dx},{dy}");
        }
    }
}

#[test]
fn print_uses_active_colors() {
    let mut m = console(frame(100, 20, 100, 3));
    m.set_foreground_color((200, 10, 20));
    m.set_background_color((1, 2, 3));
    m.print("a");
    // 'a' has background at (0, 0) and foreground at (0, 1).
    assert_eq!(m.get_pixel((0, 0)).unwrap(), (1, 2, 3));
    assert_eq!(m.get_pixel((0, 1)).unwrap(), (200, 10, 20));
}

#[test]
fn line_break_then_char_renders_on_second_row() {
    let mut m = console(frame(100, 20, 100, 3));
    m.print("a\na");
    assert_eq!(m.cursor, (1, 1));
    // Second row's cell (0, 1) starts at pixel row 10.
    assert_eq!(m.get_pixel((0, 11)).unwrap(), (255, 255, 255));
}

#[test]
fn init_twice_fully_replaces_state() {
    let mut m = DisplayTextManager::default();
    init(&mut m, frame(100, 20, 100, 3), vec![0u8; 6000]);
    m.set_foreground_color((9, 9, 9));
    m.set_background_color((4, 4, 4));
    m.print("aaaa");
    assert_eq!(m.cursor, (4, 0));

    let second = frame(40, 30, 50, 3);
    init(&mut m, second, vec![0u8; second.byte_len]);
    assert_eq!(m.frame_info, second);
    assert_eq!(m.cursor, (0, 0));
    assert_eq!(m.foreground_color, (255, 255, 255));
    assert_eq!(m.background_color, (0, 0, 0));
    assert_eq!(m.buffer.len(), second.byte_len);

    // A print after the second init uses the new geometry: four cells per
    // row now, so the fourth character wraps to the second cell row.
    m.print("aaaa");
    assert_eq!(m.cursor, (0, 1));
    assert_eq!(m.get_pixel((0, 1)).unwrap(), (255, 255, 255));
}

#[test]
fn default_is_uninitialized_sentinel() {
    let mut m = DisplayTextManager::default();
    assert_eq!(m.frame_info.width, 0);
    assert_eq!(m.frame_info.height, 0);
    assert_eq!(m.buffer.len(), 0);
    assert_eq!(m.cursor, (0, 0));
    assert_eq!(m.foreground_color, (255, 255, 255));
    assert_eq!(m.background_color, (0, 0, 0));
    assert!(m.set_pixel((0, 0), (1, 2, 3)).is_err());
    assert!(m.get_pixel((0, 0)).is_err());
    // Filling a frame with no pixels writes nothing and does not panic.
    m.fill((1, 2, 3));
    assert_eq!(m.buffer.len(), 0);
}

#[test]
fn print_respects_scanline_stride() {
    // A stride wider than the frame: glyph pixels land at offsets computed
    // from the stride, and the padding between scanlines stays untouched.
    let mut m = console(frame(100, 20, 120, 3));
    m.print("a");
    // 'a' has a foreground pixel at (0, 1), so byte offset 1 * 120 * 3.
    assert_eq!(m.get_pixel((0, 1)).unwrap(), (255, 255, 255));
    assert_eq!(m.buffer[120 * 3], 255);
    // First padding byte of scanline 1, past the 100 visible pixels.
    assert_eq!(m.buffer[120 * 3 + 100 * 3], 0);
}

#[test]
fn space_renders_all_background() {
    let mut m = console(frame(100, 20, 100, 3));
    m.fill((5, 5, 5));
    m.print(" ");
    for dx in 0..10 {
        for dy in 0..10 {
            assert_eq!(m.get_pixel((dx, dy)).unwrap(), (0, 0, 0));
        }
    }
    // Pixels outside the cell keep the fill color.
    assert_eq!(m.get_pixel((10, 0)).unwrap(), (5, 5, 5));
    assert_eq!(m.get_pixel((0, 10)).unwrap(), (5, 5, 5));
}
