use vstd::prelude::*;

verus! {

use crate::TransformedVertex;
use crate::line::{
    LineState, line_init, line_step, line_done, line_valid, line_measure, line_path,
    line_path_from, line_fuel, lemma_line_init, lemma_line_step,
};

/// `t` lies between `a` and `b`, whichever of the two is smaller.
pub open spec fn between(a: int, b: int, t: int) -> bool {
    (a <= t <= b) || (b <= t <= a)
}

/// Membership in a sequence with one element in front.
proof fn lemma_cons_contains(e: (int, int), s: Seq<(int, int)>, q: (int, int))
    ensures
        (seq![e] + s).contains(q) <==> (q == e || s.contains(q)),
{
    let c = seq![e] + s;
    if s.contains(q) {
        let i = choose|i: int| 0 <= i < s.len() && s[i] == q;
        assert(c[i + 1] == q);
    }
    if q == e {
        assert(c[0] == q);
    }
    if c.contains(q) && q != e {
        let i = choose|i: int| 0 <= i < c.len() && c[i] == q;
        assert(i >= 1);
        assert(s[i - 1] == q);
    }
}

/// Along a horizontal walk the error accumulator stays at `dx`, only the x
/// axis ever steps, and the points visited are exactly the columns between
/// the current point and the target.
proof fn lemma_path_horizontal(s: LineState, fuel: nat)
    requires
        line_valid(s),
        line_measure(s) <= fuel,
        s.dy == 0,
    ensures
        forall|q: (int, int)|
            #[trigger] line_path_from(s, fuel).contains(q) <==> (q.1 == s.y && between(
                s.x,
                s.x2,
                q.0,
            )),
    decreases fuel,
{
    let u: int = (s.x2 - s.x) * s.sx;
    let v: int = (s.y2 - s.y) * s.sy;
    assert(v == 0 && s.y2 == s.y && s.err == s.dx && u == (if s.sx == 1 {
        s.x2 - s.x
    } else {
        s.x - s.x2
    })) by (nonlinear_arith)
        requires
            (s.sx == 1 || s.sx == -1),
            (s.sy == 1 || s.sy == -1),
            u == (s.x2 - s.x) * s.sx,
            v == (s.y2 - s.y) * s.sy,
            0 <= v <= -s.dy,
            s.dy == 0,
            s.err == s.dx + s.dy - s.dx * v - s.dy * u,
    ;
    let p = line_path_from(s, fuel);
    if line_done(s) {
        assert(p =~= seq![(s.x, s.y)]);
        assert forall|q: (int, int)| #[trigger] p.contains(q) <==> (q.1 == s.y && between(
            s.x,
            s.x2,
            q.0,
        )) by {
            if q == (s.x, s.y) {
                assert(p[0] == q);
            }
        }
    } else {
        lemma_line_step(s);
        let t = line_step(s);
        assert(t.x == s.x + s.sx && t.y == s.y);
        let rest = line_path_from(t, (fuel - 1) as nat);
        lemma_path_horizontal(t, (fuel - 1) as nat);
        assert(p == seq![(s.x, s.y)] + rest);
        assert forall|q: (int, int)| #[trigger] p.contains(q) <==> (q.1 == s.y && between(
            s.x,
            s.x2,
            q.0,
        )) by {
            lemma_cons_contains((s.x, s.y), rest, q);
            assert(rest.contains(q) <==> (q.1 == t.y && between(t.x, t.x2, q.0)));
        }
    }
}

/// Along a vertical walk only the y axis ever steps, and the points visited
/// are exactly the rows between the current point and the target.
proof fn lemma_path_vertical(s: LineState, fuel: nat)
    requires
        line_valid(s),
        line_measure(s) <= fuel,
        s.dx == 0,
    ensures
        forall|q: (int, int)|
            #[trigger] line_path_from(s, fuel).contains(q) <==> (q.0 == s.x && between(
                s.y,
                s.y2,
                q.1,
            )),
    decreases fuel,
{
    let u: int = (s.x2 - s.x) * s.sx;
    let v: int = (s.y2 - s.y) * s.sy;
    assert(u == 0 && s.x2 == s.x && s.err == s.dy && v == (if s.sy == 1 {
        s.y2 - s.y
    } else {
        s.y - s.y2
    })) by (nonlinear_arith)
        requires
            (s.sx == 1 || s.sx == -1),
            (s.sy == 1 || s.sy == -1),
            u == (s.x2 - s.x) * s.sx,
            v == (s.y2 - s.y) * s.sy,
            0 <= u <= s.dx,
            s.dx == 0,
            s.err == s.dx + s.dy - s.dx * v - s.dy * u,
    ;
    let p = line_path_from(s, fuel);
    if line_done(s) {
        assert(p =~= seq![(s.x, s.y)]);
        assert forall|q: (int, int)| #[trigger] p.contains(q) <==> (q.0 == s.x && between(
            s.y,
            s.y2,
            q.1,
        )) by {
            if q == (s.x, s.y) {
                assert(p[0] == q);
            }
        }
    } else {
        lemma_line_step(s);
        let t = line_step(s);
        assert(t.y == s.y + s.sy && t.x == s.x);
        let rest = line_path_from(t, (fuel - 1) as nat);
        lemma_path_vertical(t, (fuel - 1) as nat);
        assert(p == seq![(s.x, s.y)] + rest);
        assert forall|q: (int, int)| #[trigger] p.contains(q) <==> (q.0 == s.x && between(
            s.y,
            s.y2,
            q.1,
        )) by {
            lemma_cons_contains((s.x, s.y), rest, q);
            assert(rest.contains(q) <==> (q.0 == t.x && between(t.y, t.y2, q.1)));
        }
    }
}

/// Along a perfectly diagonal walk both axes step together every
/// iteration, and the points visited are exactly those whose two offsets
/// from the current point, measured along the step directions, are equal
/// and no larger than the remaining distance.
proof fn lemma_path_diagonal(s: LineState, fuel: nat)
    requires
        line_valid(s),
        line_measure(s) <= fuel,
        s.dx == -s.dy,
        (s.x2 - s.x) * s.sx == (s.y2 - s.y) * s.sy,
    ensures
        forall|q: (int, int)|
            #[trigger] line_path_from(s, fuel).contains(q) <==> ((q.0 - s.x) * s.sx == (q.1 - s.y)
                * s.sy && 0 <= (q.0 - s.x) * s.sx <= (s.x2 - s.x) * s.sx),
    decreases fuel,
{
    let u: int = (s.x2 - s.x) * s.sx;
    let v: int = (s.y2 - s.y) * s.sy;
    assert(s.err == 0) by (nonlinear_arith)
        requires
            u == (s.x2 - s.x) * s.sx,
            v == (s.y2 - s.y) * s.sy,
            u == v,
            u <= s.dx,
            s.dx == -s.dy,
            s.err == s.dx + s.dy - s.dx * v - s.dy * u,
    ;
    let p = line_path_from(s, fuel);
    if line_done(s) {
        assert(u == 0 && v == 0) by (nonlinear_arith)
            requires
                u == (s.x2 - s.x) * s.sx,
                v == (s.y2 - s.y) * s.sy,
                s.x == s.x2,
                s.y == s.y2,
        ;
        assert(p =~= seq![(s.x, s.y)]);
        assert forall|q: (int, int)| #[trigger] p.contains(q) <==> ((q.0 - s.x) * s.sx == (q.1
            - s.y) * s.sy && 0 <= (q.0 - s.x) * s.sx <= u) by {
            assert((q.0 - s.x) * s.sx == 0 <==> q.0 == s.x) by (nonlinear_arith)
                requires
                    (s.sx == 1 || s.sx == -1),
            ;
            assert((q.1 - s.y) * s.sy == 0 <==> q.1 == s.y) by (nonlinear_arith)
                requires
                    (s.sy == 1 || s.sy == -1),
            ;
            if q == (s.x, s.y) {
                assert(p[0] == q);
            }
        }
    } else {
        lemma_line_step(s);
        let t = line_step(s);
        assert(t.x == s.x + s.sx && t.y == s.y + s.sy);
        assert((t.x2 - t.x) * t.sx == u - 1 && (t.y2 - t.y) * t.sy == v - 1) by (nonlinear_arith)
            requires
                (s.sx == 1 || s.sx == -1),
                (s.sy == 1 || s.sy == -1),
                u == (s.x2 - s.x) * s.sx,
                v == (s.y2 - s.y) * s.sy,
                t.x == s.x + s.sx,
                t.y == s.y + s.sy,
                t.x2 == s.x2,
                t.y2 == s.y2,
                t.sx == s.sx,
                t.sy == s.sy,
        ;
        let rest = line_path_from(t, (fuel - 1) as nat);
        lemma_path_diagonal(t, (fuel - 1) as nat);
        assert(p == seq![(s.x, s.y)] + rest);
        assert forall|q: (int, int)| #[trigger] p.contains(q) <==> ((q.0 - s.x) * s.sx == (q.1
            - s.y) * s.sy && 0 <= (q.0 - s.x) * s.sx <= u) by {
            lemma_cons_contains((s.x, s.y), rest, q);
            assert(rest.contains(q) <==> ((q.0 - t.x) * t.sx == (q.1 - t.y) * t.sy && 0 <= (q.0
                - t.x) * t.sx <= u - 1));
            assert((q.0 - t.x) * t.sx == (q.0 - s.x) * s.sx - 1 && (q.1 - t.y) * t.sy == (q.1 - s.y)
                * s.sy - 1) by (nonlinear_arith)
                requires
                    (s.sx == 1 || s.sx == -1),
                    (s.sy == 1 || s.sy == -1),
                    t.x == s.x + s.sx,
                    t.y == s.y + s.sy,
                    t.sx == s.sx,
                    t.sy == s.sy,
            ;
            assert((q.0 - s.x) * s.sx == 0 <==> q.0 == s.x) by (nonlinear_arith)
                requires
                    (s.sx == 1 || s.sx == -1),
            ;
            assert((q.1 - s.y) * s.sy == 0 <==> q.1 == s.y) by (nonlinear_arith)
                requires
                    (s.sy == 1 || s.sy == -1),
            ;
        }
    }
}

/// The pixels of a perfectly diagonal line do not depend on which endpoint
/// comes first.
pub proof fn lemma_line_symmetric_diagonal(p1: TransformedVertex, p2: TransformedVertex)
    requires
        vstd::math::abs(p2.x - p1.x) == vstd::math::abs(p2.y - p1.y),
    ensures
        line_path(p1, p2).to_set() == line_path(p2, p1).to_set(),
{
    lemma_line_init(p1, p2);
    lemma_line_init(p2, p1);
    let s1 = line_init(p1, p2);
    let s2 = line_init(p2, p1);
    assert((s1.x2 - s1.x) * s1.sx == (s1.y2 - s1.y) * s1.sy && (s2.x2 - s2.x) * s2.sx == (s2.y2
        - s2.y) * s2.sy) by (nonlinear_arith)
        requires
            (s1.sx == 1 || s1.sx == -1),
            (s1.sy == 1 || s1.sy == -1),
            (s2.sx == 1 || s2.sx == -1),
            (s2.sy == 1 || s2.sy == -1),
            s1.sx == (if s1.x < s1.x2 { 1int } else { -1int }),
            s1.sy == (if s1.y < s1.y2 { 1int } else { -1int }),
            s2.sx == (if s2.x < s2.x2 { 1int } else { -1int }),
            s2.sy == (if s2.y < s2.y2 { 1int } else { -1int }),
            s1.x == p1.x as int && s1.y == p1.y as int && s1.x2 == p2.x as int && s1.y2
                == p2.y as int,
            s2.x == p2.x as int && s2.y == p2.y as int && s2.x2 == p1.x as int && s2.y2
                == p1.y as int,
            vstd::math::abs(p2.x - p1.x) == vstd::math::abs(p2.y - p1.y),
            vstd::math::abs(p2.x - p1.x) == (if p2.x >= p1.x {
                p2.x - p1.x
            } else {
                p1.x - p2.x
            }),
            vstd::math::abs(p2.y - p1.y) == (if p2.y >= p1.y {
                p2.y - p1.y
            } else {
                p1.y - p2.y
            }),
    ;
    lemma_path_diagonal(s1, line_fuel(p1, p2));
    lemma_path_diagonal(s2, line_fuel(p2, p1));
    let d: int = vstd::math::abs(p2.x - p1.x) as int;
    assert forall|q: (int, int)|
        #[trigger] line_path(p1, p2).contains(q) <==> line_path(p2, p1).contains(q) by {
        assert(((q.0 - s1.x) * s1.sx == (q.1 - s1.y) * s1.sy && 0 <= (q.0 - s1.x) * s1.sx <= (s1.x2
            - s1.x) * s1.sx) <==> ((q.0 - s2.x) * s2.sx == (q.1 - s2.y) * s2.sy && 0 <= (q.0 - s2.x)
            * s2.sx <= (s2.x2 - s2.x) * s2.sx)) by (nonlinear_arith)
            requires
                (s1.sx == 1 || s1.sx == -1),
                (s1.sy == 1 || s1.sy == -1),
                (s2.sx == 1 || s2.sx == -1),
                (s2.sy == 1 || s2.sy == -1),
                s1.x == p1.x as int && s1.y == p1.y as int && s1.x2 == p2.x as int && s1.y2
                    == p2.y as int,
                s2.x == p2.x as int && s2.y == p2.y as int && s2.x2 == p1.x as int && s2.y2
                    == p1.y as int,
                s1.sx == (if s1.x < s1.x2 { 1int } else { -1int }),
                s1.sy == (if s1.y < s1.y2 { 1int } else { -1int }),
                s2.sx == (if s2.x < s2.x2 { 1int } else { -1int }),
                s2.sy == (if s2.y < s2.y2 { 1int } else { -1int }),
                (s1.x2 - s1.x) * s1.sx == (s1.y2 - s1.y) * s1.sy,
                (s2.x2 - s2.x) * s2.sx == (s2.y2 - s2.y) * s2.sy,
        ;
    }
    assert(line_path(p1, p2).to_set() =~= line_path(p2, p1).to_set());
}

/// The pixels of a horizontal line do not depend on which endpoint comes
/// first: both orders paint exactly the columns between the endpoints.
pub proof fn lemma_line_symmetric_horizontal(p1: TransformedVertex, p2: TransformedVertex)
    requires
        p1.y == p2.y,
    ensures
        line_path(p1, p2).to_set() == line_path(p2, p1).to_set(),
        forall|q: (int, int)|
            #[trigger] line_path(p1, p2).contains(q) <==> (q.1 == p1.y as int && between(
                p1.x as int,
                p2.x as int,
                q.0,
            )),
{
    lemma_line_init(p1, p2);
    lemma_line_init(p2, p1);
    lemma_path_horizontal(line_init(p1, p2), line_fuel(p1, p2));
    lemma_path_horizontal(line_init(p2, p1), line_fuel(p2, p1));
    assert(line_path(p1, p2).to_set() =~= line_path(p2, p1).to_set());
}

/// The pixels of a vertical line do not depend on which endpoint comes
/// first: both orders paint exactly the rows between the endpoints.
pub proof fn lemma_line_symmetric_vertical(p1: TransformedVertex, p2: TransformedVertex)
    requires
        p1.x == p2.x,
    ensures
        line_path(p1, p2).to_set() == line_path(p2, p1).to_set(),
        forall|q: (int, int)|
            #[trigger] line_path(p1, p2).contains(q) <==> (q.0 == p1.x as int && between(
                p1.y as int,
                p2.y as int,
                q.1,
            )),
{
    lemma_line_init(p1, p2);
    lemma_line_init(p2, p1);
    lemma_path_vertical(line_init(p1, p2), line_fuel(p1, p2));
    lemma_path_vertical(line_init(p2, p1), line_fuel(p2, p1));
    assert(line_path(p1, p2).to_set() =~= line_path(p2, p1).to_set());
}

} // verus!
