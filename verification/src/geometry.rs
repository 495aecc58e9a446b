//! Frame geometry: the hardware-described layout of the framebuffer and
//! the arithmetic that turns a pixel coordinate into a byte offset.

use vstd::prelude::*;
use vstd::arithmetic::div_mod::lemma_fundamental_div_mod;
use vstd::arithmetic::div_mod::lemma_fundamental_div_mod_converse;

verus! {

/// Tag describing how the hardware interprets a pixel's bytes.
///
/// The pixel writer stores colors in blue, green, red byte order no matter
/// what this tag says; the tag is carried along as part of the descriptor
/// but never consulted when rendering.
#[derive(Clone, Copy, PartialEq, Eq, Structural, Debug)]
pub enum PixelFormat {
    Rgb,
    Bgr,
    U8,
    Unknown,
}

/// Hardware-described layout of the framebuffer: dimensions in pixels,
/// pixels per scanline, bytes per pixel, and the total length in bytes of
/// the backing memory region.
#[derive(Clone, Copy, PartialEq, Eq, Structural, Debug)]
pub struct FrameInfo {
    pub width: usize,
    pub height: usize,
    pub stride: usize,
    pub bytes_per_pixel: usize,
    pub byte_len: usize,
    pub pixel_format: PixelFormat,
}

/// Number of bytes in one scanline.
pub open spec fn row_bytes(info: FrameInfo) -> int {
    info.stride * info.bytes_per_pixel
}

/// Byte offset of the first byte of the pixel at column `x`, row `y`.
pub open spec fn pixel_offset(info: FrameInfo, x: int, y: int) -> int {
    y * row_bytes(info) + x * info.bytes_per_pixel
}

/// Pixel row that byte `i` of the buffer belongs to.
pub open spec fn byte_row(info: FrameInfo, i: int) -> int {
    i / row_bytes(info)
}

/// Pixel column that byte `i` of the buffer belongs to.
pub open spec fn byte_col(info: FrameInfo, i: int) -> int {
    (i % row_bytes(info)) / (info.bytes_per_pixel as int)
}

/// Position of byte `i` within its pixel: 0 is blue, 1 is green, 2 is red,
/// anything beyond 2 is padding the writer never touches.
pub open spec fn byte_chan(info: FrameInfo, i: int) -> int {
    (i % row_bytes(info)) % (info.bytes_per_pixel as int)
}

/// A descriptor a caller may render through: the declared scanlines fit in
/// the buffer, a scanline holds at least `width` pixels, and whenever there
/// is any pixel to write a pixel is wide enough for the three color bytes.
pub open spec fn info_valid(info: FrameInfo) -> bool {
    &&& info.width <= info.stride
    &&& info.stride * info.bytes_per_pixel * info.height <= info.byte_len
    &&& (info.width > 0 && info.height > 0 ==> info.bytes_per_pixel >= 3)
}

/// Geometry in which a 10x10 cell grid can be drawn at all.
pub open spec fn cell_geometry(info: FrameInfo) -> bool {
    info.width >= 10 && info.height >= 10
}

/// The three bytes of an in-bounds pixel lie inside the buffer.
pub proof fn lemma_offset_in_bounds(info: FrameInfo, x: int, y: int)
    requires
        info_valid(info),
        0 <= x < info.width,
        0 <= y < info.height,
    ensures
        0 <= pixel_offset(info, x, y),
        pixel_offset(info, x, y) + info.bytes_per_pixel <= info.byte_len,
{
    let s = info.stride as int;
    let b = info.bytes_per_pixel as int;
    let w = info.width as int;
    let h = info.height as int;
    assert(0 <= y * (s * b) + x * b) by (nonlinear_arith)
        requires 0 <= x, 0 <= y, 0 <= s, 0 <= b;
    assert(y * (s * b) + x * b + b <= h * (s * b)) by (nonlinear_arith)
        requires 0 <= x, x < w, w <= s, 0 <= y, y < h, 1 <= b;
    assert(s * b * h == h * (s * b)) by (nonlinear_arith);
}

/// Decomposing the byte offset of channel `k` of the pixel at `(x, y)`
/// recovers exactly that column, row, and channel.
pub proof fn lemma_offset_decomposes(info: FrameInfo, x: int, y: int, k: int)
    requires
        1 <= info.bytes_per_pixel,
        0 <= x < info.stride,
        0 <= y,
        0 <= k < info.bytes_per_pixel,
    ensures
        byte_row(info, pixel_offset(info, x, y) + k) == y,
        byte_col(info, pixel_offset(info, x, y) + k) == x,
        byte_chan(info, pixel_offset(info, x, y) + k) == k,
{
    let s = info.stride as int;
    let b = info.bytes_per_pixel as int;
    let rb = row_bytes(info);
    let r = x * b + k;
    let i = pixel_offset(info, x, y) + k;
    assert(0 <= x * b + k < s * b) by (nonlinear_arith)
        requires 0 <= x, x < s, 0 <= k, k < b, 1 <= b;
    assert(1 <= s * b) by (nonlinear_arith)
        requires 1 <= s, 1 <= b;
    assert(rb == s * b);
    assert(i == y * rb + r);
    lemma_fundamental_div_mod_converse(i, rb, y, r);
    assert(byte_row(info, i) == y);
    assert(i % rb == r);
    lemma_fundamental_div_mod_converse(r, b, x, k);
}

/// Every nonnegative byte offset is the offset of the column, row, and
/// channel it decomposes into, with the column inside the scanline and the
/// channel inside the pixel.
pub proof fn lemma_byte_recomposes(info: FrameInfo, i: int)
    requires
        1 <= info.bytes_per_pixel,
        1 <= info.stride,
        0 <= i,
    ensures
        i == byte_row(info, i) * row_bytes(info) + byte_col(info, i) * info.bytes_per_pixel
            + byte_chan(info, i),
        0 <= byte_row(info, i),
        0 <= byte_col(info, i) < info.stride,
        0 <= byte_chan(info, i) < info.bytes_per_pixel,
{
    let s = info.stride as int;
    let b = info.bytes_per_pixel as int;
    let rb = row_bytes(info);
    assert(1 <= s * b) by (nonlinear_arith)
        requires 1 <= s, 1 <= b;
    assert(rb == s * b);
    lemma_fundamental_div_mod(i, rb);
    let q = i / rb;
    let r = i % rb;
    assert(0 <= r < rb);
    assert(i == rb * q + r);
    lemma_fundamental_div_mod(r, b);
    let c = r / b;
    let m = r % b;
    assert(0 <= m < b);
    assert(r == b * c + m);
    assert(0 <= c < s) by (nonlinear_arith)
        requires r == b * c + m, 0 <= m < b, 0 <= r, r < s * b;
    assert(0 <= q) by (nonlinear_arith)
        requires i == rb * q + r, 0 <= r < rb, 0 <= i, 1 <= rb;
    assert(byte_row(info, i) == q && byte_col(info, i) == c && byte_chan(info, i) == m);
    assert(i == q * rb + c * b + m) by (nonlinear_arith)
        requires i == rb * q + r, r == b * c + m;
}

} // verus!
