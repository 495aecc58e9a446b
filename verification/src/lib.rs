//! A minimal text console over a raw linear framebuffer.
//!
//! The console renders a fixed 8x8 bitmap font into a byte buffer laid out
//! as `height` scanlines of `stride` pixels, each pixel `bytes_per_pixel`
//! bytes wide with its color stored in blue, green, red order. Characters
//! advance a cell cursor over a grid of 10x10-pixel cells (8x8 glyph plus
//! two columns and two rows of background padding), wrapping horizontally
//! and vertically without scrolling.

pub mod cursor;
pub mod display;
pub mod geometry;
pub mod glyphs;
pub mod laws;
pub mod pixel;

pub use display::DisplayTextManager;
pub use display::IndexOutOfRange;
pub use display::init;
pub use geometry::FrameInfo;
pub use geometry::PixelFormat;
