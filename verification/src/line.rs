use vstd::prelude::*;

verus! {

use crate::TransformedVertex;
use crate::raster::{PixelBuffer, Rgba};
use vstd::math::abs;

/// The complete state of the integer incremental line walk: the current
/// point, the target point, and the constants and error accumulator of the
/// classic two-axis error scheme (`dx >= 0`, `dy <= 0`, `err` accumulates).
pub ghost struct LineState {
    pub x: int,
    pub y: int,
    pub x2: int,
    pub y2: int,
    pub dx: int,
    pub dy: int,
    pub sx: int,
    pub sy: int,
    pub err: int,
}

/// The walk's state before the first pixel of the line from `p1` to `p2`.
pub open spec fn line_init(p1: TransformedVertex, p2: TransformedVertex) -> LineState {
    LineState {
        x: p1.x as int,
        y: p1.y as int,
        x2: p2.x as int,
        y2: p2.y as int,
        dx: abs(p2.x - p1.x) as int,
        dy: -(abs(p2.y - p1.y) as int),
        sx: if p1.x < p2.x { 1int } else { -1int },
        sy: if p1.y < p2.y { 1int } else { -1int },
        err: abs(p2.x - p1.x) - abs(p2.y - p1.y),
    }
}

/// The walk has arrived at its target point.
pub open spec fn line_done(s: LineState) -> bool {
    s.x == s.x2 && s.y == s.y2
}

/// One iteration of the walk: from the doubled error accumulator decide
/// whether to advance along x, along y, or diagonally along both.
pub open spec fn line_step(s: LineState) -> LineState {
    let e2: int = 2 * s.err;
    LineState {
        x: if e2 >= s.dy { s.x + s.sx } else { s.x },
        y: if e2 <= s.dx { s.y + s.sy } else { s.y },
        x2: s.x2,
        y2: s.y2,
        dx: s.dx,
        dy: s.dy,
        sx: s.sx,
        sy: s.sy,
        err: s.err + (if e2 >= s.dy { s.dy } else { 0int }) + (if e2 <= s.dx {
            s.dx
        } else {
            0int
        }),
    }
}

/// How many pixels the walk has still to cover in each axis, summed. This is
/// the walk's termination measure.
pub open spec fn line_measure(s: LineState) -> int {
    (s.x2 - s.x) * s.sx + (s.y2 - s.y) * s.sy
}

/// The walk's invariant. The remaining distances `u` and `v` are
/// non-negative and never exceed the axis totals, the error accumulator is
/// the exact linear combination the scheme maintains, and it stays within
/// twice the axis totals, which also bounds the doubled value read each
/// iteration.
pub open spec fn line_valid(s: LineState) -> bool {
    let u: int = (s.x2 - s.x) * s.sx;
    let v: int = (s.y2 - s.y) * s.sy;
    &&& (s.sx == 1 || s.sx == -1)
    &&& (s.sy == 1 || s.sy == -1)
    &&& s.dx >= 0
    &&& s.dy <= 0
    &&& 0 <= u
    &&& u <= s.dx
    &&& 0 <= v
    &&& v <= -s.dy
    &&& s.err == s.dx + s.dy - s.dx * v - s.dy * u
    &&& 2 * s.dy <= s.err
    &&& s.err <= 2 * s.dx
}

/// The points the walk visits from state `s` on, the current point
/// included, cut off after `fuel` steps. With fuel at least the measure of a
/// valid state the cutoff is never reached and the sequence ends at the
/// target point.
pub open spec fn line_path_from(s: LineState, fuel: nat) -> Seq<(int, int)>
    decreases fuel,
{
    if line_done(s) || fuel == 0 {
        seq![(s.x, s.y)]
    } else {
        seq![(s.x, s.y)] + line_path_from(line_step(s), (fuel - 1) as nat)
    }
}

/// Fuel that always suffices: the two axis distances summed.
pub open spec fn line_fuel(p1: TransformedVertex, p2: TransformedVertex) -> nat {
    (abs(p2.x - p1.x) + abs(p2.y - p1.y)) as nat
}

/// The pixels of the line from `p1` to `p2`, in walk order: both endpoints
/// included, each consecutive pair adjacent in the 8-connected sense.
pub open spec fn line_path(p1: TransformedVertex, p2: TransformedVertex) -> Seq<(int, int)> {
    line_path_from(line_init(p1, p2), line_fuel(p1, p2))
}

/// The initial state is valid, its measure is exactly the default fuel, and
/// the current point starts no further than the axis totals from the target.
pub proof fn lemma_line_init(p1: TransformedVertex, p2: TransformedVertex)
    ensures
        line_valid(line_init(p1, p2)),
        line_measure(line_init(p1, p2)) == line_fuel(p1, p2),
        line_init(p1, p2).dx <= 0x1_0000_0000,
        -line_init(p1, p2).dy <= 0x1_0000_0000,
{
    let s = line_init(p1, p2);
    let u: int = (s.x2 - s.x) * s.sx;
    let v: int = (s.y2 - s.y) * s.sy;
    assert(u == s.dx && v == -s.dy) by (nonlinear_arith)
        requires
            u == (s.x2 - s.x) * s.sx,
            v == (s.y2 - s.y) * s.sy,
            s.dx == abs(s.x2 - s.x),
            s.dy == -abs(s.y2 - s.y),
            s.sx == (if s.x < s.x2 { 1int } else { -1int }),
            s.sy == (if s.y < s.y2 { 1int } else { -1int }),
            abs(s.x2 - s.x) == (if s.x2 >= s.x { s.x2 - s.x } else { s.x - s.x2 }),
            abs(s.y2 - s.y) == (if s.y2 >= s.y { s.y2 - s.y } else { s.y - s.y2 }),
    ;
    assert(s.err == s.dx + s.dy - s.dx * v - s.dy * u) by (nonlinear_arith)
        requires
            u == s.dx,
            v == -s.dy,
            s.err == s.dx + s.dy,
    ;
}

/// One step from a valid, unfinished state: validity is preserved, the
/// measure strictly falls, the walk's constants stay fixed, and the point
/// moves to an 8-connected neighbour.
pub proof fn lemma_line_step(s: LineState)
    requires
        line_valid(s),
        !line_done(s),
    ensures
        line_valid(line_step(s)),
        0 <= line_measure(line_step(s)) < line_measure(s),
        line_step(s).x2 == s.x2,
        line_step(s).y2 == s.y2,
        line_step(s).dx == s.dx,
        line_step(s).dy == s.dy,
        line_step(s).sx == s.sx,
        line_step(s).sy == s.sy,
        line_step(s).x == s.x || line_step(s).x == s.x + s.sx,
        line_step(s).y == s.y || line_step(s).y == s.y + s.sy,
        !(line_step(s).x == s.x && line_step(s).y == s.y),
{
    let t = line_step(s);
    let e2: int = 2 * s.err;
    let u: int = (s.x2 - s.x) * s.sx;
    let v: int = (s.y2 - s.y) * s.sy;
    let u2: int = (t.x2 - t.x) * t.sx;
    let v2: int = (t.y2 - t.y) * t.sy;
    let xs: bool = e2 >= s.dy;
    let ys: bool = e2 <= s.dx;

    // The walk is not finished, so distance remains along some axis.
    assert(u > 0 || v > 0) by (nonlinear_arith)
        requires
            (s.sx == 1 || s.sx == -1),
            (s.sy == 1 || s.sy == -1),
            u == (s.x2 - s.x) * s.sx,
            v == (s.y2 - s.y) * s.sy,
            u >= 0,
            v >= 0,
            !(s.x == s.x2 && s.y == s.y2),
    ;

    // The guards never step an axis that has already arrived.
    if u == 0 {
        assert(!xs) by (nonlinear_arith)
            requires
                u == 0,
                1 <= v,
                v <= -s.dy,
                s.dx >= 0,
                s.err == s.dx + s.dy - s.dx * v - s.dy * u,
                e2 == 2 * s.err,
                xs == (e2 >= s.dy),
        ;
    }
    if v == 0 {
        assert(!ys) by (nonlinear_arith)
            requires
                v == 0,
                1 <= u,
                u <= s.dx,
                s.dy <= 0,
                s.err == s.dx + s.dy - s.dx * v - s.dy * u,
                e2 == 2 * s.err,
                ys == (e2 <= s.dx),
        ;
    }

    // Each fired axis shortens its remaining distance by exactly one.
    assert(u2 == u - (if xs { 1int } else { 0int }) && v2 == v - (if ys {
        1int
    } else {
        0int
    })) by (nonlinear_arith)
        requires
            (s.sx == 1 || s.sx == -1),
            (s.sy == 1 || s.sy == -1),
            u == (s.x2 - s.x) * s.sx,
            v == (s.y2 - s.y) * s.sy,
            u2 == (t.x2 - t.x) * t.sx,
            v2 == (t.y2 - t.y) * t.sy,
            t.x2 == s.x2,
            t.y2 == s.y2,
            t.sx == s.sx,
            t.sy == s.sy,
            t.x == (if xs { s.x + s.sx } else { s.x }),
            t.y == (if ys { s.y + s.sy } else { s.y }),
    ;

    // The error accumulator keeps its exact linear form.
    assert(t.err == t.dx + t.dy - t.dx * v2 - t.dy * u2) by (nonlinear_arith)
        requires
            t.dx == s.dx,
            t.dy == s.dy,
            u2 == u - (if xs { 1int } else { 0int }),
            v2 == v - (if ys { 1int } else { 0int }),
            s.err == s.dx + s.dy - s.dx * v - s.dy * u,
            t.err == s.err + (if xs { s.dy } else { 0int }) + (if ys { s.dx } else { 0int }),
    ;
}

/// A valid state's current point lies within the axis totals of the target.
pub proof fn lemma_line_valid_bounds(s: LineState)
    requires
        line_valid(s),
    ensures
        -s.dx <= s.x2 - s.x <= s.dx,
        s.dy <= s.y2 - s.y <= -s.dy,
{
    let u: int = (s.x2 - s.x) * s.sx;
    let v: int = (s.y2 - s.y) * s.sy;
    assert(-s.dx <= s.x2 - s.x <= s.dx && s.dy <= s.y2 - s.y <= -s.dy) by (nonlinear_arith)
        requires
            (s.sx == 1 || s.sx == -1),
            (s.sy == 1 || s.sy == -1),
            u == (s.x2 - s.x) * s.sx,
            v == (s.y2 - s.y) * s.sy,
            0 <= u <= s.dx,
            0 <= v <= -s.dy,
    ;
}

/// Two pixel coordinates that differ, but by at most one in each axis.
pub open spec fn adjacent(p: (int, int), q: (int, int)) -> bool {
    &&& p != q
    &&& -1 <= q.0 - p.0 <= 1
    &&& -1 <= q.1 - p.1 <= 1
}

/// From a valid state with enough fuel, the walk's point sequence starts at
/// the current point, ends exactly at the target, and moves to an
/// 8-connected neighbour at every step.
pub proof fn lemma_line_path_from(s: LineState, fuel: nat)
    requires
        line_valid(s),
        line_measure(s) <= fuel,
    ensures
        line_path_from(s, fuel).len() >= 1,
        line_path_from(s, fuel)[0] == (s.x, s.y),
        line_path_from(s, fuel).last() == (s.x2, s.y2),
        forall|k: int|
            0 <= k < line_path_from(s, fuel).len() - 1 ==> adjacent(
                #[trigger] line_path_from(s, fuel)[k],
                line_path_from(s, fuel)[k + 1],
            ),
    decreases fuel,
{
    let p = line_path_from(s, fuel);
    if line_done(s) {
        assert(p =~= seq![(s.x, s.y)]);
    } else {
        lemma_line_step(s);
        let t = line_step(s);
        assert(fuel >= 1);
        let rest = line_path_from(t, (fuel - 1) as nat);
        lemma_line_path_from(t, (fuel - 1) as nat);
        assert(p == seq![(s.x, s.y)] + rest);
        assert(p.last() == rest.last());
        assert forall|k: int| 0 <= k < p.len() - 1 implies adjacent(#[trigger] p[k], p[k + 1]) by {
            if k == 0 {
                assert(p[0] == (s.x, s.y));
                assert(p[1] == rest[0]);
                assert(rest[0] == (t.x, t.y));
            } else {
                assert(p[k] == rest[k - 1]);
                assert(p[k + 1] == rest[k]);
                assert(adjacent(rest[k - 1], rest[k]));
            }
        }
    }
}

/// A line whose endpoints coincide consists of exactly that one point: the
/// walk plots it and stops.
pub proof fn lemma_line_degenerate(p: TransformedVertex)
    ensures
        line_path(p, p) == seq![(p.x as int, p.y as int)],
        forall|q: (int, int)| line_path(p, p).contains(q) <==> q == (p.x as int, p.y as int),
{
    assert(line_path(p, p) =~= seq![(p.x as int, p.y as int)]);
    assert forall|q: (int, int)| line_path(p, p).contains(q) <==> q == (
        p.x as int,
        p.y as int,
    ) by {
        if q == (p.x as int, p.y as int) {
            assert(line_path(p, p)[0] == q);
        }
    }
}

/// A degenerate draw plots exactly one pixel. Any buffer that a call of
/// `draw_line(p, p, ..)` leaves behind — that is, any `after` related to
/// `before` by this function's postcondition — holds the stroke color at
/// `p` if `p` is in bounds, and `before`'s value at every other pixel.
pub proof fn lemma_degenerate_draw_plots_one_pixel(
    before: PixelBuffer,
    after: PixelBuffer,
    p: TransformedVertex,
    color: Rgba,
)
    requires
        painted(after, before, line_path(p, p), color),
    ensures
        before.in_bounds(p.x as int, p.y as int) ==> after.pixel(p.x as int, p.y as int) == color,
        forall|x: int, y: int|
            before.in_bounds(x, y) && !(x == p.x as int && y == p.y as int)
                ==> #[trigger] after.pixel(x, y) == before.pixel(x, y),
{
    lemma_line_degenerate(p);
}

/// The line from `p1` to `p2` is a continuous 8-connected path: it starts
/// at `p1`, ends at `p2`, and each point is followed by a distinct
/// neighbour differing by at most one in each coordinate.
pub proof fn lemma_line_path_connected(p1: TransformedVertex, p2: TransformedVertex)
    ensures
        line_path(p1, p2).len() >= 1,
        line_path(p1, p2)[0] == (p1.x as int, p1.y as int),
        line_path(p1, p2).last() == (p2.x as int, p2.y as int),
        forall|k: int|
            0 <= k < line_path(p1, p2).len() - 1 ==> adjacent(
                #[trigger] line_path(p1, p2)[k],
                line_path(p1, p2)[k + 1],
            ),
{
    lemma_line_init(p1, p2);
    lemma_line_path_from(line_init(p1, p2), line_fuel(p1, p2));
}

/// Membership in a sequence extended by one element.
proof fn lemma_push_contains(s: Seq<(int, int)>, e: (int, int), q: (int, int))
    ensures
        s.push(e).contains(q) <==> (s.contains(q) || q == e),
{
    if s.contains(q) {
        let i = choose|i: int| 0 <= i < s.len() && s[i] == q;
        assert(s.push(e)[i] == q);
    }
    if q == e {
        assert(s.push(e)[s.len() as int] == q);
    }
    if s.push(e).contains(q) && q != e {
        let i = choose|i: int| 0 <= i < s.push(e).len() && s.push(e)[i] == q;
        assert(s[i] == q);
    }
}

/// Every in-bounds pixel of `buf` holds `color` if its coordinate is among
/// `pts`, and its value from `orig` otherwise.
pub open spec fn painted(
    buf: PixelBuffer,
    orig: PixelBuffer,
    pts: Seq<(int, int)>,
    color: Rgba,
) -> bool {
    forall|xx: int, yy: int|
        orig.in_bounds(xx, yy) ==> #[trigger] buf.pixel(xx, yy) == (if pts.contains((xx, yy)) {
            color
        } else {
            orig.pixel(xx, yy)
        })
}

/// Draw the line from `p1` to `p2` into `buf` with the integer incremental
/// walk, plotting every point of `line_path(p1, p2)` that lies inside the
/// buffer in `color` and leaving every other pixel untouched. Points outside
/// the buffer, negative coordinates included, are skipped silently.
pub fn draw_line(p1: TransformedVertex, p2: TransformedVertex, buf: &mut PixelBuffer, color: Rgba)
    requires
        old(buf).wf(),
    ensures
        final(buf).wf(),
        final(buf).spec_width() == old(buf).spec_width(),
        final(buf).spec_height() == old(buf).spec_height(),
        final(buf)@.len() == old(buf)@.len(),
        painted(*final(buf), *old(buf), line_path(p1, p2), color),
{
    let mut x: i64 = p1.x as i64;
    let mut y: i64 = p1.y as i64;
    let x2: i64 = p2.x as i64;
    let y2: i64 = p2.y as i64;
    let dx: i64 = if x2 >= x {
        x2 - x
    } else {
        x - x2
    };
    let dy: i64 = if y2 >= y {
        -(y2 - y)
    } else {
        -(y - y2)
    };
    let sx: i64 = if x < x2 {
        1
    } else {
        -1
    };
    let sy: i64 = if y < y2 {
        1
    } else {
        -1
    };
    let mut err: i64 = dx + dy;
    let ghost fuel0: int = line_fuel(p1, p2) as int;
    let ghost mut s: LineState = line_init(p1, p2);
    let ghost mut k: int = 0;
    proof {
        lemma_line_init(p1, p2);
        assert(line_path(p1, p2) =~= line_path(p1, p2).take(0) + line_path_from(
            s,
            (fuel0 - 0) as nat,
        ));
    }
    loop
        invariant_except_break
            painted(*buf, *old(buf), line_path(p1, p2).take(k), color),
        invariant
            buf.wf(),
            buf.spec_width() == old(buf).spec_width(),
            buf.spec_height() == old(buf).spec_height(),
            buf@.len() == old(buf)@.len(),
            line_valid(s),
            s.x == x as int,
            s.y == y as int,
            s.x2 == x2 as int,
            s.y2 == y2 as int,
            s.dx == dx as int,
            s.dy == dy as int,
            s.sx == sx as int,
            s.sy == sy as int,
            s.err == err as int,
            0 <= dx <= 0x1_0000_0000,
            -0x1_0000_0000 <= dy <= 0,
            -0x8000_0000 <= x2 <= 0x7fff_ffff,
            -0x8000_0000 <= y2 <= 0x7fff_ffff,
            0 <= k,
            k + line_measure(s) <= fuel0,
            k <= line_path(p1, p2).len(),
            line_path(p1, p2) == line_path(p1, p2).take(k) + line_path_from(
                s,
                (fuel0 - k) as nat,
            ),
        ensures
            buf.wf(),
            buf.spec_width() == old(buf).spec_width(),
            buf.spec_height() == old(buf).spec_height(),
            buf@.len() == old(buf)@.len(),
            painted(*buf, *old(buf), line_path(p1, p2), color),
        decreases line_measure(s),
    {
        proof {
            lemma_line_valid_bounds(s);
        }
        buf.plot(x, y, color);
        proof {
            let pth = line_path(p1, p2);
            let rest = line_path_from(s, (fuel0 - k) as nat);
            assert(rest[0] == (s.x, s.y));
            assert(rest.len() >= 1);
            assert(pth[k] == (s.x, s.y));
            assert(pth.take(k + 1) =~= pth.take(k).push((s.x, s.y)));
            assert forall|xx: int, yy: int| old(buf).in_bounds(xx, yy) implies #[trigger] buf.pixel(
                xx,
                yy,
            ) == (if pth.take(k + 1).contains((xx, yy)) {
                color
            } else {
                old(buf).pixel(xx, yy)
            }) by {
                lemma_push_contains(pth.take(k), (s.x, s.y), (xx, yy));
            }
        }
        if x == x2 && y == y2 {
            proof {
                let pth = line_path(p1, p2);
                assert(line_done(s));
                assert(line_path_from(s, (fuel0 - k) as nat) =~= seq![(s.x, s.y)]);
                assert(pth =~= pth.take(k + 1));
            }
            break ;
        }
        proof {
            lemma_line_step(s);
        }
        let e2: i64 = 2 * err;
        if e2 >= dy {
            err = err + dy;
            x = x + sx;
        }
        if e2 <= dx {
            err = err + dx;
            y = y + sy;
        }
        proof {
            let pth = line_path(p1, p2);
            let prev = s;
            s = line_step(prev);
            k = k + 1;
            assert(line_path_from(prev, (fuel0 - (k - 1)) as nat) == seq![(prev.x, prev.y)]
                + line_path_from(s, (fuel0 - k) as nat));
            assert(pth.take(k) =~= pth.take(k - 1).push((prev.x, prev.y)));
            assert(pth =~= pth.take(k) + line_path_from(s, (fuel0 - k) as nat));
            assert(k <= pth.len());
        }
    }
}

} // verus!
