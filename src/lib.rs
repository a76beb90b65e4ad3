//! Fixed-pitch text rendering onto a pixel-addressable display: a
//! dirty-tracked character grid and a pixel-accurate scrolling marquee.

pub mod lcd;
pub mod error;
pub mod font;
pub mod term;
pub mod marquee;
pub mod bmp;
pub mod st7789;
