//! Every input point lies inside every edge of the hull that quickhull computes.
use vstd::prelude::*;

use crate::geometry::{is_outside, lemma_orient_endpoints, orient, Line, Point};
use crate::hull::{
    bottom_line, chain, furthest, hull_of, left_line, leftmost, lemma_furthest_is_max,
    lemma_leftmost_is_min, lemma_outside_members, lemma_outside_shrinks, lemma_rightmost_is_max,
    outside, right_line, rightmost, top_line,
};
use crate::laws::lemma_halves_disjoint;

verus! {

/// The cross product of the vectors `(ax, ay)` and `(bx, by)`.
pub open spec fn cr(ax: int, ay: int, bx: int, by: int) -> int {
    ax * by - ay * bx
}

proof fn lemma_binomials(a: int, b: int, c: int, d: int)
    ensures
        (a - b) * (c - d) == a * c - a * d - b * c + b * d,
{
    assert((a - b) * (c - d) == a * c - a * d - b * c + b * d) by (nonlinear_arith);
}

/// A vector `p` inside the cone from `a` turning left to `b` (less than a half
/// turn) is left of no vector `w` that is left of neither `a` nor `b`.
proof fn lemma_cone(ax: int, ay: int, bx: int, by: int, px: int, py: int, wx: int, wy: int)
    requires
        cr(ax, ay, bx, by) > 0,
        cr(px, py, bx, by) >= 0,
        cr(ax, ay, px, py) >= 0,
        cr(ax, ay, wx, wy) <= 0,
        cr(bx, by, wx, wy) <= 0,
    ensures
        cr(px, py, wx, wy) <= 0,
{
    lemma_binomials(ax * by, ay * bx, px * wy, py * wx);
    lemma_binomials(px * by, py * bx, ax * wy, ay * wx);
    lemma_binomials(ax * py, ay * px, bx * wy, by * wx);
    assert(ax * by * (px * wy) == px * by * (ax * wy)) by (nonlinear_arith);
    assert(ax * by * (py * wx) == ax * py * (by * wx)) by (nonlinear_arith);
    assert(ay * bx * (px * wy) == ay * px * (bx * wy)) by (nonlinear_arith);
    assert(ay * bx * (py * wx) == py * bx * (ay * wx)) by (nonlinear_arith);
    assert(px * by * (ay * wx) == ay * px * (by * wx)) by (nonlinear_arith);
    assert(py * bx * (ax * wy) == ax * py * (bx * wy)) by (nonlinear_arith);
    let k = cr(ax, ay, bx, by);
    let m = cr(px, py, wx, wy);
    let s1 = cr(px, py, bx, by);
    let t1 = cr(ax, ay, wx, wy);
    let s2 = cr(ax, ay, px, py);
    let t2 = cr(bx, by, wx, wy);
    assert(s1 * t1 <= 0) by (nonlinear_arith)
        requires
            s1 >= 0,
            t1 <= 0,
    ;
    assert(s2 * t2 <= 0) by (nonlinear_arith)
        requires
            s2 >= 0,
            t2 <= 0,
    ;
    assert(m <= 0) by (nonlinear_arith)
        requires
            k > 0,
            k * m == s1 * t1 + s2 * t2,
            s1 * t1 <= 0,
            s2 * t2 <= 0,
    ;
}

/// Orientation of `c` relative to the line from `a` to `b`.
pub open spec fn o(a: Point, b: Point, c: Point) -> int {
    orient(Line { u: a, v: b }, c)
}

/// `q` lies inside the line from `a` to `b`: not strictly to its left.
pub open spec fn inside_edge(a: Point, b: Point, q: Point) -> bool {
    o(a, b, q) <= 0
}

/// No point of `s` lies strictly to the left of the line from `a` to `b`.
pub open spec fn supports(a: Point, b: Point, s: Seq<Point>) -> bool {
    forall|q: Point| #[trigger] s.contains(q) ==> inside_edge(a, b, q)
}

/// Every edge between consecutive points of `poly` supports `s`.
pub open spec fn edges_support(poly: Seq<Point>, s: Seq<Point>) -> bool {
    forall|i: int| 0 <= i < poly.len() - 1 ==> supports(#[trigger] poly[i], poly[i + 1], s)
}

/// The ends of `l` with the chain between them.
pub open spec fn polygon(l: Line, t: Seq<Point>) -> Seq<Point> {
    seq![l.u] + chain(l, t) + seq![l.v]
}

/// `q` is inside the two lines that join the ends of `l` to `x`.
pub open spec fn in_cone(l: Line, x: Point, q: Point) -> bool {
    o(l.u, x, q) <= 0 && o(x, l.v, q) <= 0
}

/// The state in which a recursive step on `l` over `t` starts: the points of `t`
/// lie strictly outside `l`, and every other point of `s` lies inside `l` and
/// inside both lines that join the ends of `l` to any point of `t`.
pub open spec fn step_ready(l: Line, t: Seq<Point>, s: Seq<Point>) -> bool {
    &&& forall|x: Point| #[trigger] t.contains(x) ==> orient(l, x) > 0
    &&& forall|q: Point| #[trigger]
        s.contains(q) && !t.contains(q) ==> orient(l, q) <= 0 && forall|x: Point|
            t.contains(x) ==> #[trigger] in_cone(l, x, q)
}

// Each of the following applies the cone lemma at one corner of a step.
proof fn lemma_left_outer(u: Point, v: Point, p: Point, x: Point, q: Point)
    requires
        o(u, v, x) > 0,
        o(u, p, x) > 0,
        o(p, v, x) <= 0,
        o(x, v, q) <= 0,
        o(u, x, q) <= 0,
    ensures
        o(x, p, q) <= 0,
{
    assert(cr(v.x - x.x, v.y - x.y, x.x - u.x, x.y - u.y) == o(u, v, x)) by (nonlinear_arith);
    assert(cr(p.x - x.x, p.y - x.y, x.x - u.x, x.y - u.y) == o(u, p, x)) by (nonlinear_arith);
    assert(cr(v.x - x.x, v.y - x.y, p.x - x.x, p.y - x.y) == -o(p, v, x)) by (nonlinear_arith);
    assert(cr(v.x - x.x, v.y - x.y, q.x - x.x, q.y - x.y) == o(x, v, q)) by (nonlinear_arith);
    assert(cr(x.x - u.x, x.y - u.y, q.x - x.x, q.y - x.y) == o(u, x, q)) by (nonlinear_arith);
    assert(cr(p.x - x.x, p.y - x.y, q.x - x.x, q.y - x.y) == o(x, p, q)) by (nonlinear_arith);
    lemma_cone(v.x - x.x, v.y - x.y, x.x - u.x, x.y - u.y, p.x - x.x, p.y - x.y, q.x - x.x, q.y - x.y);
}

proof fn lemma_left_inner_start(u: Point, v: Point, p: Point, x: Point, q: Point)
    requires
        o(u, v, p) > 0,
        o(u, v, x) > 0,
        o(u, v, q) > 0,
        o(u, p, x) > 0,
        o(u, p, q) <= 0,
    ensures
        o(u, x, q) <= 0,
{
    assert(cr(p.x - u.x, p.y - u.y, u.x - v.x, u.y - v.y) == o(u, v, p)) by (nonlinear_arith);
    assert(cr(x.x - u.x, x.y - u.y, u.x - v.x, u.y - v.y) == o(u, v, x)) by (nonlinear_arith);
    assert(cr(p.x - u.x, p.y - u.y, x.x - u.x, x.y - u.y) == o(u, p, x)) by (nonlinear_arith);
    assert(cr(p.x - u.x, p.y - u.y, q.x - u.x, q.y - u.y) == o(u, p, q)) by (nonlinear_arith);
    assert(cr(u.x - v.x, u.y - v.y, q.x - u.x, q.y - u.y) == -o(u, v, q)) by (nonlinear_arith);
    assert(cr(x.x - u.x, x.y - u.y, q.x - u.x, q.y - u.y) == o(u, x, q)) by (nonlinear_arith);
    lemma_cone(p.x - u.x, p.y - u.y, u.x - v.x, u.y - v.y, x.x - u.x, x.y - u.y, q.x - u.x, q.y - u.y);
}

proof fn lemma_left_inner_end(u: Point, v: Point, p: Point, x: Point, q: Point)
    requires
        o(u, v, p) > 0,
        o(u, p, x) > 0,
        o(u, v, x) <= o(u, v, p),
        o(u, v, q) <= o(u, v, p),
        o(u, p, q) <= 0,
    ensures
        o(x, p, q) <= 0,
{
    assert(cr(v.x - u.x, v.y - u.y, p.x - u.x, p.y - u.y) == o(u, v, p)) by (nonlinear_arith);
    assert(cr(p.x - x.x, p.y - x.y, p.x - u.x, p.y - u.y) == o(u, p, x)) by (nonlinear_arith);
    assert(cr(v.x - u.x, v.y - u.y, p.x - x.x, p.y - x.y) == o(u, v, p) - o(u, v, x)) by (nonlinear_arith);
    assert(cr(v.x - u.x, v.y - u.y, q.x - p.x, q.y - p.y) == o(u, v, q) - o(u, v, p)) by (nonlinear_arith);
    assert(cr(p.x - u.x, p.y - u.y, q.x - p.x, q.y - p.y) == o(u, p, q)) by (nonlinear_arith);
    assert(cr(p.x - x.x, p.y - x.y, q.x - p.x, q.y - p.y) == o(x, p, q)) by (nonlinear_arith);
    lemma_cone(v.x - u.x, v.y - u.y, p.x - u.x, p.y - u.y, p.x - x.x, p.y - x.y, q.x - p.x, q.y - p.y);
}

proof fn lemma_right_outer(u: Point, v: Point, p: Point, x: Point, q: Point)
    requires
        o(u, v, x) > 0,
        o(u, p, x) <= 0,
        o(p, v, x) > 0,
        o(x, v, q) <= 0,
        o(u, x, q) <= 0,
    ensures
        o(p, x, q) <= 0,
{
    assert(cr(v.x - x.x, v.y - x.y, x.x - u.x, x.y - u.y) == o(u, v, x)) by (nonlinear_arith);
    assert(cr(x.x - p.x, x.y - p.y, x.x - u.x, x.y - u.y) == -o(u, p, x)) by (nonlinear_arith);
    assert(cr(v.x - x.x, v.y - x.y, x.x - p.x, x.y - p.y) == o(p, v, x)) by (nonlinear_arith);
    assert(cr(v.x - x.x, v.y - x.y, q.x - x.x, q.y - x.y) == o(x, v, q)) by (nonlinear_arith);
    assert(cr(x.x - u.x, x.y - u.y, q.x - x.x, q.y - x.y) == o(u, x, q)) by (nonlinear_arith);
    assert(cr(x.x - p.x, x.y - p.y, q.x - x.x, q.y - x.y) == o(p, x, q)) by (nonlinear_arith);
    lemma_cone(v.x - x.x, v.y - x.y, x.x - u.x, x.y - u.y, x.x - p.x, x.y - p.y, q.x - x.x, q.y - x.y);
}

proof fn lemma_right_inner_start(u: Point, v: Point, p: Point, x: Point, q: Point)
    requires
        o(u, v, p) > 0,
        o(u, v, x) <= o(u, v, p),
        o(p, v, x) > 0,
        o(p, v, q) <= 0,
        o(u, v, q) <= o(u, v, p),
    ensures
        o(p, x, q) <= 0,
{
    assert(cr(v.x - p.x, v.y - p.y, v.x - u.x, v.y - u.y) == o(u, v, p)) by (nonlinear_arith);
    assert(cr(x.x - p.x, x.y - p.y, v.x - u.x, v.y - u.y) == o(u, v, p) - o(u, v, x)) by (nonlinear_arith);
    assert(cr(v.x - p.x, v.y - p.y, x.x - p.x, x.y - p.y) == o(p, v, x)) by (nonlinear_arith);
    assert(cr(v.x - p.x, v.y - p.y, q.x - p.x, q.y - p.y) == o(p, v, q)) by (nonlinear_arith);
    assert(cr(v.x - u.x, v.y - u.y, q.x - p.x, q.y - p.y) == o(u, v, q) - o(u, v, p)) by (nonlinear_arith);
    assert(cr(x.x - p.x, x.y - p.y, q.x - p.x, q.y - p.y) == o(p, x, q)) by (nonlinear_arith);
    lemma_cone(v.x - p.x, v.y - p.y, v.x - u.x, v.y - u.y, x.x - p.x, x.y - p.y, q.x - p.x, q.y - p.y);
}

#[verifier::rlimit(50)]
proof fn lemma_right_inner_end(u: Point, v: Point, p: Point, x: Point, q: Point)
    requires
        o(u, v, p) > 0,
        o(p, v, x) > 0,
        o(u, v, x) > 0,
        o(u, v, q) > 0,
        o(p, v, q) <= 0,
    ensures
        o(x, v, q) <= 0,
{
    assert(cr(u.x - v.x, u.y - v.y, v.x - p.x, v.y - p.y) == o(u, v, p)) by (nonlinear_arith);
    assert(cr(v.x - x.x, v.y - x.y, v.x - p.x, v.y - p.y) == o(p, v, x)) by (nonlinear_arith);
    assert(cr(u.x - v.x, u.y - v.y, v.x - x.x, v.y - x.y) == o(u, v, x)) by (nonlinear_arith);
    assert(cr(u.x - v.x, u.y - v.y, q.x - v.x, q.y - v.y) == -o(u, v, q)) by (nonlinear_arith);
    assert(cr(v.x - p.x, v.y - p.y, q.x - v.x, q.y - v.y) == o(p, v, q)) by (nonlinear_arith);
    assert(cr(v.x - x.x, v.y - x.y, q.x - v.x, q.y - v.y) == o(x, v, q)) by (nonlinear_arith);
    lemma_cone(u.x - v.x, u.y - v.y, v.x - p.x, v.y - p.y, v.x - x.x, v.y - x.y, q.x - v.x, q.y - v.y);
}

proof fn lemma_top_start(lo: Point, hi: Point, x: Point, q: Point)
    requires
        hi.x > lo.x,
        x.x >= lo.x,
        q.x >= lo.x,
        o(lo, hi, x) > 0,
        o(lo, hi, q) <= 0,
    ensures
        o(lo, x, q) <= 0,
{
    assert(cr(hi.x - lo.x, hi.y - lo.y, 0, 1) == hi.x - lo.x) by (nonlinear_arith);
    assert(cr(x.x - lo.x, x.y - lo.y, 0, 1) == x.x - lo.x) by (nonlinear_arith);
    assert(cr(0, 1, q.x - lo.x, q.y - lo.y) == lo.x - q.x) by (nonlinear_arith);
    lemma_cone(hi.x - lo.x, hi.y - lo.y, 0, 1, x.x - lo.x, x.y - lo.y, q.x - lo.x, q.y - lo.y);
}

proof fn lemma_top_end(lo: Point, hi: Point, x: Point, q: Point)
    requires
        hi.x > lo.x,
        x.x <= hi.x,
        q.x <= hi.x,
        o(lo, hi, x) > 0,
        o(lo, hi, q) <= 0,
    ensures
        o(x, hi, q) <= 0,
{
    assert(cr(0, -1, hi.x - lo.x, hi.y - lo.y) == hi.x - lo.x) by (nonlinear_arith);
    assert(cr(hi.x - x.x, hi.y - x.y, hi.x - lo.x, hi.y - lo.y) == o(lo, hi, x)) by (nonlinear_arith);
    assert(cr(0, -1, hi.x - x.x, hi.y - x.y) == hi.x - x.x) by (nonlinear_arith);
    assert(cr(0, -1, q.x - hi.x, q.y - hi.y) == q.x - hi.x) by (nonlinear_arith);
    assert(cr(hi.x - lo.x, hi.y - lo.y, q.x - hi.x, q.y - hi.y) == o(lo, hi, q)) by (nonlinear_arith);
    assert(cr(hi.x - x.x, hi.y - x.y, q.x - hi.x, q.y - hi.y) == o(x, hi, q)) by (nonlinear_arith);
    lemma_cone(0, -1, hi.x - lo.x, hi.y - lo.y, hi.x - x.x, hi.y - x.y, q.x - hi.x, q.y - hi.y);
}

proof fn lemma_bottom_start(lo: Point, hi: Point, x: Point, q: Point)
    requires
        hi.x > lo.x,
        x.x <= hi.x,
        q.x <= hi.x,
        o(hi, lo, x) > 0,
        o(hi, lo, q) <= 0,
    ensures
        o(hi, x, q) <= 0,
{
    assert(cr(lo.x - hi.x, lo.y - hi.y, 0, -1) == hi.x - lo.x) by (nonlinear_arith);
    assert(cr(x.x - hi.x, x.y - hi.y, 0, -1) == hi.x - x.x) by (nonlinear_arith);
    assert(cr(0, -1, q.x - hi.x, q.y - hi.y) == q.x - hi.x) by (nonlinear_arith);
    lemma_cone(lo.x - hi.x, lo.y - hi.y, 0, -1, x.x - hi.x, x.y - hi.y, q.x - hi.x, q.y - hi.y);
}

proof fn lemma_bottom_end(lo: Point, hi: Point, x: Point, q: Point)
    requires
        hi.x > lo.x,
        x.x >= lo.x,
        q.x >= lo.x,
        o(hi, lo, x) > 0,
        o(hi, lo, q) <= 0,
    ensures
        o(x, lo, q) <= 0,
{
    assert(cr(0, 1, lo.x - hi.x, lo.y - hi.y) == hi.x - lo.x) by (nonlinear_arith);
    assert(cr(lo.x - x.x, lo.y - x.y, lo.x - hi.x, lo.y - hi.y) == o(hi, lo, x)) by (nonlinear_arith);
    assert(cr(0, 1, lo.x - x.x, lo.y - x.y) == x.x - lo.x) by (nonlinear_arith);
    assert(cr(0, 1, q.x - lo.x, q.y - lo.y) == lo.x - q.x) by (nonlinear_arith);
    assert(cr(lo.x - hi.x, lo.y - hi.y, q.x - lo.x, q.y - lo.y) == o(hi, lo, q)) by (nonlinear_arith);
    assert(cr(lo.x - x.x, lo.y - x.y, q.x - lo.x, q.y - lo.y) == o(x, lo, q)) by (nonlinear_arith);
    lemma_cone(0, 1, lo.x - hi.x, lo.y - hi.y, lo.x - x.x, lo.y - x.y, q.x - lo.x, q.y - lo.y);
}

/// A point on the vertical line of two points lies on the line through them.
proof fn lemma_vertical(a: Point, b: Point, x: Point)
    requires
        a.x == b.x,
        x.x == a.x,
    ensures
        o(a, b, x) == 0,
        o(b, a, x) == 0,
{
    assert(o(a, b, x) == 0) by (nonlinear_arith)
        requires
            a.x == b.x,
            x.x == a.x,
    ;
    assert(o(b, a, x) == 0) by (nonlinear_arith)
        requires
            a.x == b.x,
            x.x == a.x,
    ;
}

/// Where a step starts as `step_ready` describes, every edge of the polygon
/// that its chain closes with the step's line has all of `s` inside it.
#[verifier::rlimit(40)]
pub proof fn lemma_chain_supported(l: Line, t: Seq<Point>, s: Seq<Point>)
    requires
        step_ready(l, t, s),
    ensures
        edges_support(polygon(l, t), s),
    decreases t.len(),
{
    let u = l.u;
    let v = l.v;
    let poly = polygon(l, t);
    if t.len() == 0 {
        assert(poly =~= seq![u, v]);
        assert forall|i: int| 0 <= i < poly.len() - 1 implies supports(
            #[trigger] poly[i],
            poly[i + 1],
            s,
        ) by {
            assert forall|q: Point| #[trigger] s.contains(q) implies inside_edge(u, v, q) by {
                assert(!t.contains(q));
            }
        }
    } else {
        let p = furthest(l, t);
        let ll = left_line(l, p);
        let rl = right_line(l, p);
        let i = lemma_furthest_is_max(l, t);
        lemma_outside_shrinks(ll, t, i);
        lemma_outside_shrinks(rl, t, i);
        let tl = outside(ll, t);
        let tr = outside(rl, t);
        lemma_outside_members(ll, t);
        lemma_outside_members(rl, t);
        lemma_orient_endpoints(ll);
        lemma_orient_endpoints(rl);
        lemma_orient_endpoints(l);
        assert(t.contains(t[i]));
        assert(o(u, v, p) > 0);
        assert forall|k: int| 0 <= k < t.len() implies orient(l, #[trigger] t[k]) > 0 by {
            assert(t.contains(t[k]));
        }
        assert forall|x: Point| #[trigger] t.contains(x) implies o(u, v, x) <= o(u, v, p) by {
            let k = choose|k: int| 0 <= k < t.len() && t[k] == x;
            assert(orient(l, t[k]) > 0);
        }
        assert forall|x: Point| #[trigger] tl.contains(x) implies o(p, v, x) <= 0 by {
            lemma_halves_disjoint(l, t, x);
        }
        assert forall|x: Point| #[trigger] tr.contains(x) implies o(u, p, x) <= 0 by {
            lemma_halves_disjoint(l, t, x);
        }
        assert forall|q: Point| #[trigger]
            s.contains(q) && !tl.contains(q) implies orient(ll, q) <= 0 && forall|x: Point|
                tl.contains(x) ==> #[trigger] in_cone(ll, x, q) by {
            if t.contains(q) {
                assert(o(u, v, q) > 0);
                assert(o(u, v, q) <= o(u, v, p));
                assert forall|x: Point| tl.contains(x) implies #[trigger] in_cone(ll, x, q) by {
                    assert(t.contains(x));
                    lemma_left_inner_start(u, v, p, x, q);
                    lemma_left_inner_end(u, v, p, x, q);
                }
            } else {
                assert(in_cone(l, p, q));
                assert forall|x: Point| tl.contains(x) implies #[trigger] in_cone(ll, x, q) by {
                    assert(t.contains(x));
                    assert(in_cone(l, x, q));
                    lemma_left_outer(u, v, p, x, q);
                }
            }
        }
        assert forall|q: Point| #[trigger]
            s.contains(q) && !tr.contains(q) implies orient(rl, q) <= 0 && forall|x: Point|
                tr.contains(x) ==> #[trigger] in_cone(rl, x, q) by {
            if t.contains(q) {
                assert(o(u, v, q) > 0);
                assert(o(u, v, q) <= o(u, v, p));
                assert forall|x: Point| tr.contains(x) implies #[trigger] in_cone(rl, x, q) by {
                    assert(t.contains(x));
                    lemma_right_inner_start(u, v, p, x, q);
                    lemma_right_inner_end(u, v, p, x, q);
                }
            } else {
                assert(in_cone(l, p, q));
                assert forall|x: Point| tr.contains(x) implies #[trigger] in_cone(rl, x, q) by {
                    assert(t.contains(x));
                    assert(in_cone(l, x, q));
                    lemma_right_outer(u, v, p, x, q);
                }
            }
        }
        assert(step_ready(ll, tl, s));
        assert(step_ready(rl, tr, s));
        lemma_chain_supported(ll, tl, s);
        lemma_chain_supported(rl, tr, s);
        let a = chain(ll, tl);
        let b = chain(rl, tr);
        let pl = polygon(ll, tl);
        let pr = polygon(rl, tr);
        assert(chain(l, t) == a + seq![p] + b);
        assert(poly =~= pl + (b + seq![v]));
        assert(poly =~= pl.drop_last() + pr);
        assert forall|j: int| 0 <= j < poly.len() - 1 implies supports(
            #[trigger] poly[j],
            poly[j + 1],
            s,
        ) by {
            if j < pl.len() - 1 {
                assert(poly[j] == pl[j]);
                assert(poly[j + 1] == pl[j + 1]);
                assert(supports(pl[j], pl[j + 1], s));
            } else {
                let k = j - (pl.len() - 1);
                assert(poly[j] == pr[k]);
                assert(poly[j + 1] == pr[k + 1]);
                assert(supports(pr[k], pr[k + 1], s));
            }
        }
    }
}

/// Every edge of the closed polygon `h`, the one from its last vertex back to its
/// first included, has all of `s` inside it.
pub open spec fn encloses(h: Seq<Point>, s: Seq<Point>) -> bool {
    forall|i: int| 0 <= i < h.len() ==> supports(#[trigger] h[i], h[(i + 1) % (h.len() as int)], s)
}

/// The hull encloses its input: no input point passes the side test of any hull
/// edge, the closing edge from the rightmost point back to the first vertex
/// included. With the two extreme points on every edge, each input point that is
/// not a vertex lies inside or on the hull.
#[verifier::rlimit(40)]
pub proof fn lemma_hull_extremal(s: Seq<Point>)
    requires
        s.len() > 0,
    ensures
        encloses(hull_of(s), s),
        forall|i: int, q: Point|
            #![trigger hull_of(s)[i], s.contains(q)]
            0 <= i < hull_of(s).len() && s.contains(q) ==> !is_outside(
                Line { u: hull_of(s)[i], v: hull_of(s)[(i + 1) % (hull_of(s).len() as int)] },
                q,
            ),
{
    let lo = leftmost(s);
    let hi = rightmost(s);
    let h = hull_of(s);
    let n = h.len();
    let il = lemma_leftmost_is_min(s);
    let ih = lemma_rightmost_is_max(s);
    assert forall|q: Point| #[trigger] s.contains(q) implies lo.x <= q.x <= hi.x by {
        let k = choose|k: int| 0 <= k < s.len() && s[k] == q;
        assert(!crate::geometry::lex_lt(s[k], lo));
        assert(!crate::geometry::lex_lt(hi, s[k]));
    }
    if lo == hi {
        assert(h =~= seq![lo]);
        vstd::arithmetic::div_mod::lemma_mod_self_0(1);
        assert forall|i: int| 0 <= i < h.len() implies supports(#[trigger] h[i], h[(i + 1) % (h.len() as int)], s) by {
            assert forall|q: Point| #[trigger] s.contains(q) implies inside_edge(lo, lo, q) by {
                lemma_orient_endpoints(Line { u: lo, v: q });
                assert(o(lo, lo, q) == 0) by (nonlinear_arith);
            }
        }
    } else {
        let top = top_line(s);
        let bot = bottom_line(s);
        let tt = outside(top, s);
        let tb = outside(bot, s);
        lemma_outside_members(top, s);
        lemma_outside_members(bot, s);
        lemma_orient_endpoints(top);
        lemma_orient_endpoints(bot);
        assert(s.contains(s[il]));
        assert(s.contains(s[ih]));
        assert forall|q: Point| #[trigger]
            s.contains(q) && !tt.contains(q) implies orient(top, q) <= 0 && forall|x: Point|
                tt.contains(x) ==> #[trigger] in_cone(top, x, q) by {
            assert forall|x: Point| tt.contains(x) implies #[trigger] in_cone(top, x, q) by {
                if hi.x == lo.x {
                    lemma_vertical(lo, hi, x);
                }
                lemma_top_start(lo, hi, x, q);
                lemma_top_end(lo, hi, x, q);
            }
        }
        assert forall|q: Point| #[trigger]
            s.contains(q) && !tb.contains(q) implies orient(bot, q) <= 0 && forall|x: Point|
                tb.contains(x) ==> #[trigger] in_cone(bot, x, q) by {
            assert forall|x: Point| tb.contains(x) implies #[trigger] in_cone(bot, x, q) by {
                if hi.x == lo.x {
                    lemma_vertical(lo, hi, x);
                }
                lemma_bottom_start(lo, hi, x, q);
                lemma_bottom_end(lo, hi, x, q);
            }
        }
        assert(step_ready(top, tt, s));
        assert(step_ready(bot, tb, s));
        lemma_chain_supported(top, tt, s);
        lemma_chain_supported(bot, tb, s);
        let a = chain(bot, tb);
        let b = chain(top, tt);
        let pb = polygon(bot, tb);
        let pt = polygon(top, tt);
        assert(h == a + seq![lo] + b + seq![hi]);
        assert(h =~= a + pt);
        assert(h =~= pb.drop_first() + (b + seq![hi]));
        assert forall|i: int| 0 <= i < h.len() implies supports(#[trigger] h[i], h[(i + 1) % (h.len() as int)], s) by {
            if i < n - 1 {
                vstd::arithmetic::div_mod::lemma_small_mod((i + 1) as nat, n as nat);
                if i < a.len() {
                    assert(h[i] == pb[i + 1]);
                    assert(h[i + 1] == pb[i + 2]);
                    assert(supports(pb[i + 1], pb[i + 2], s));
                } else {
                    let k = i - a.len();
                    assert(h[i] == pt[k]);
                    assert(h[i + 1] == pt[k + 1]);
                    assert(supports(pt[k], pt[k + 1], s));
                }
            } else {
                vstd::arithmetic::div_mod::lemma_mod_self_0(n as int);
                assert(h[i] == hi);
                assert(h[0] == pb[1]);
                assert(supports(pb[0], pb[1], s));
            }
        }
    }
    assert forall|i: int, q: Point|
        #![trigger h[i], s.contains(q)]
        0 <= i < h.len() && s.contains(q) implies !is_outside(
        Line { u: h[i], v: h[(i + 1) % (h.len() as int)] },
        q,
    ) by {
        assert(supports(h[i], h[(i + 1) % (h.len() as int)], s));
        assert(inside_edge(h[i], h[(i + 1) % (h.len() as int)], q));
    }
}

} // verus!
