//! Carries an arbitrary byte stream inside the pixels of an RGBA image and
//! recovers it, byte for byte, from the image alone.
//!
//! - `sizing`: the arithmetic that gives a grid its shape.
//! - `header`: the byte count as four bytes, most significant first.
//! - `grid`: the pixel grid, an image buffer of the `image` crate.
//! - `layout`: where header, bytes and padding lie on a grid, and what
//!   follows from it.
//! - `codec`: `pack` and `unpack`.

pub mod codec;
pub mod grid;
pub mod header;
pub mod layout;
pub mod sizing;
