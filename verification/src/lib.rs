//! Software rasterization and animation core for a rotating-hexagon display.
//!
//! The library owns the logic that is worth specifying: the pixel buffer and
//! its bounds discipline, the integer incremental line rasterizer, the frame
//! composer that draws the hexagon's six edges, and the animation clock's
//! state machine and timing rule. Windowing and presentation are left to a
//! thin unverified shell that feeds this library plain values.

use vstd::prelude::*;

pub mod clock;
pub mod compose;
pub mod laws;
pub mod line;
pub mod raster;

verus! {

/// An integer pixel coordinate, as produced by the float-to-pixel transform
/// of the display shell. Coordinates may lie outside the buffer; the
/// rasterizer skips such points silently.
#[derive(Clone, Copy, PartialEq, Eq, Structural, Debug)]
pub struct TransformedVertex {
    pub x: i32,
    pub y: i32,
}

} // verus!
