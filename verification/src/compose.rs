use vstd::prelude::*;

verus! {

use crate::TransformedVertex;
use crate::raster::{PixelBuffer, Rgba, clear_color};
use crate::line::{draw_line, line_path};

/// The stroke every hexagon edge is drawn with: opaque red.
pub open spec fn spec_stroke_color() -> Rgba {
    Rgba { r: 255, g: 0, b: 0, a: 255 }
}

pub fn stroke_color() -> (c: Rgba)
    ensures
        c == spec_stroke_color(),
{
    Rgba { r: 255, g: 0, b: 0, a: 255 }
}

/// Whether `p` lies on one of the first `n` edges of the hexagon whose
/// corners are `verts`: the edge from corner `j` to corner `(j + 1) % 6`,
/// for some `j < n`.
pub open spec fn on_outline_upto(verts: Seq<TransformedVertex>, p: (int, int), n: int) -> bool {
    exists|j: int|
        0 <= j < n && #[trigger] line_path(verts[j], verts[(j + 1) % 6]).contains(p)
}

/// Whether `p` lies on the hexagon's outline: on any of its six edges.
pub open spec fn on_hexagon_outline(verts: Seq<TransformedVertex>, p: (int, int)) -> bool {
    on_outline_upto(verts, p, 6)
}

/// Compose one frame: clear the whole buffer to transparent black, then
/// draw the six edges joining corner `i` to corner `(i + 1) % 6` in opaque
/// red. Afterwards every in-bounds pixel on the outline holds the stroke
/// color and every other in-bounds pixel holds the clear color.
pub fn compose_frame(verts: &[TransformedVertex; 6], buf: &mut PixelBuffer)
    requires
        old(buf).wf(),
    ensures
        final(buf).wf(),
        final(buf).spec_width() == old(buf).spec_width(),
        final(buf).spec_height() == old(buf).spec_height(),
        final(buf)@.len() == old(buf)@.len(),
        forall|x: int, y: int|
            old(buf).in_bounds(x, y) ==> #[trigger] final(buf).pixel(x, y) == (if on_hexagon_outline(
                verts@,
                (x, y),
            ) {
                spec_stroke_color()
            } else {
                clear_color()
            }),
{
    buf.clear();
    let color = stroke_color();
    let mut i: usize = 0;
    while i < 6
        invariant
            buf.wf(),
            buf.spec_width() == old(buf).spec_width(),
            buf.spec_height() == old(buf).spec_height(),
            buf@.len() == old(buf)@.len(),
            i <= 6,
            color == spec_stroke_color(),
            forall|x: int, y: int|
                old(buf).in_bounds(x, y) ==> #[trigger] buf.pixel(x, y) == (if on_outline_upto(
                    verts@,
                    (x, y),
                    i as int,
                ) {
                    spec_stroke_color()
                } else {
                    clear_color()
                }),
        decreases 6 - i,
    {
        let a = verts[i];
        let b = verts[(i + 1) % 6];
        draw_line(a, b, buf, color);
        proof {
            let ii: int = i as int;
            assert(((i + 1) % 6) as int == (ii + 1) % 6);
            let e = line_path(verts@[ii], verts@[(ii + 1) % 6]);
            assert(e == line_path(a, b));
            assert forall|x: int, y: int| old(buf).in_bounds(x, y) implies #[trigger] buf.pixel(
                x,
                y,
            ) == (if on_outline_upto(verts@, (x, y), i as int + 1) {
                spec_stroke_color()
            } else {
                clear_color()
            }) by {
                if e.contains((x, y)) {
                    assert(on_outline_upto(verts@, (x, y), i as int + 1));
                } else {
                    if on_outline_upto(verts@, (x, y), i as int + 1) {
                        let j = choose|j: int|
                            0 <= j < i as int + 1 && #[trigger] line_path(
                                verts@[j],
                                verts@[(j + 1) % 6],
                            ).contains((x, y));
                        assert(j < i as int);
                        assert(on_outline_upto(verts@, (x, y), i as int));
                    } else {
                        if on_outline_upto(verts@, (x, y), i as int) {
                            let j = choose|j: int|
                                0 <= j < i as int && #[trigger] line_path(
                                    verts@[j],
                                    verts@[(j + 1) % 6],
                                ).contains((x, y));
                            assert(on_outline_upto(verts@, (x, y), i as int + 1));
                        }
                    }
                }
            }
        }
        i = i + 1;
    }
}

} // verus!
