//! The 84 x 48 PCD8544 (Nokia 5110) display: its command set, the framebuffer,
//! and the drawing of pixels, lines, rectangles, circles and text.
use vstd::prelude::*;

pub mod commands;
pub mod controller;
pub mod legacy;
pub mod font;
pub mod shapes;
pub mod text;
pub mod framebuffer;

verus! {

/// Width of the display in pixels.
pub const SCREEN_WIDTH: usize = 84;

/// Height of the display in pixels.
pub const SCREEN_HEIGHT: usize = 48;

/// The pixel at the middle of the display.
pub const SCREEN_CENTER: (usize, usize) = (42, 24);

} // verus!
