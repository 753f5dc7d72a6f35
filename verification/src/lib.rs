//! Colors in three interchangeable notations: hexadecimal text, an RGB
//! triplet and an HSL triplet, with conversions between them, blending, and
//! the effects derived from blending.
//!
//! All arithmetic is exact integer arithmetic. Fractions (saturation,
//! lightness, blend weights) are fixed-point numbers counted in millionths;
//! see [`fixed`].
//!
//! - [`color`]: the [`Color`] type, its model [`ColorView`] and its
//!   operations;
//! - [`fixed`]: fixed-point fractions and blending of single fields;
//! - [`hex`]: reading and writing hexadecimal text;
//! - [`space`]: the arithmetic of the RGB and HSL color spaces;
//! - [`render`]: colors as a line of text;
//! - [`round_trip`]: how close a color comes back from HSL;
//! - [`laws`]: what holds of the operations, whatever the colors are.

pub mod color;
pub mod fixed;
pub mod hex;
pub mod laws;
pub mod render;
pub mod round_trip;
pub mod space;

pub use color::{Color, ColorError, ColorView};
pub use fixed::UNIT;
