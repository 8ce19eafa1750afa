//! Points, directed lines and the exact integer predicates the hull is built from.
use vstd::prelude::*;

verus! {

/// A point of the plane with integer coordinates.
#[derive(Clone, Copy, Debug, PartialEq, Eq, Structural, Hash)]
pub struct Point {
    pub x: i32,
    pub y: i32,
}

/// The difference of two points. Its components stay within the range
/// that such a difference can take, which keeps every product exact.
#[derive(Clone, Copy, Debug, PartialEq, Eq, Structural, Hash)]
pub struct Vector {
    pub x: i64,
    pub y: i64,
}

/// A directed line from `u` to `v`: the side tests are taken relative to the
/// ray that runs from `u` towards `v`.
#[derive(Clone, Copy, Debug, PartialEq, Eq, Structural, Hash)]
pub struct Line {
    pub u: Point,
    pub v: Point,
}

/// An element of a hull sequence: a vertex, or a dividing line.
#[derive(Clone, Copy, Debug, PartialEq, Eq, Structural, Hash)]
pub enum Shape {
    Point(Point),
    Line(Line),
}

/// Largest magnitude that a component of a difference of two points can have.
pub const DIFF_BOUND: i64 = 0x1_0000_0000;

impl Vector {
    /// Both components lie within `DIFF_BOUND` of zero.
    pub open spec fn small(self) -> bool {
        -DIFF_BOUND <= self.x <= DIFF_BOUND && -DIFF_BOUND <= self.y <= DIFF_BOUND
    }
}

impl Point {
    /// The position vector of this point.
    pub fn as_vector(&self) -> (r: Vector)
        ensures
            r.x == self.x,
            r.y == self.y,
            r.small(),
    {
        Vector { x: self.x as i64, y: self.y as i64 }
    }
}

/// Two-dimensional cross product of `a` and `b`.
pub open spec fn cross(a: Vector, b: Vector) -> int {
    a.x * b.y - a.y * b.x
}

/// Twice the signed area of the triangle `l.u`, `l.v`, `p`: positive exactly when
/// `p` lies strictly to the left of the ray from `l.u` towards `l.v`.
pub open spec fn orient(l: Line, p: Point) -> int {
    (l.v.x - l.u.x) * (p.y - l.u.y) - (l.v.y - l.u.y) * (p.x - l.u.x)
}

/// The perpendicular distance from `p` to `l`, multiplied by the length of `l`.
/// For one line this orders points exactly as the true distance does.
pub open spec fn dist(l: Line, p: Point) -> int {
    let o = orient(l, p);
    if o < 0 { -o } else { o }
}

/// `p` is strictly outside `l`: it is neither endpoint and lies strictly to the left.
pub open spec fn is_outside(l: Line, p: Point) -> bool {
    p != l.u && p != l.v && orient(l, p) > 0
}

/// Lexicographic order on points: by `x`, then by `y`.
pub open spec fn lex_lt(a: Point, b: Point) -> bool {
    a.x < b.x || (a.x == b.x && a.y < b.y)
}

/// The vector that leads from `v` to `u`.
pub fn point_subtract(u: &Point, v: &Point) -> (r: Vector)
    ensures
        r.x == u.x - v.x,
        r.y == u.y - v.y,
        r.small(),
{
    Vector { x: u.x as i64 - v.x as i64, y: u.y as i64 - v.y as i64 }
}

proof fn lemma_small_product(a: int, b: int)
    requires
        -DIFF_BOUND <= a <= DIFF_BOUND,
        -DIFF_BOUND <= b <= DIFF_BOUND,
    ensures
        -DIFF_BOUND * DIFF_BOUND <= a * b <= DIFF_BOUND * DIFF_BOUND,
{
    assert(-DIFF_BOUND * DIFF_BOUND <= a * b <= DIFF_BOUND * DIFF_BOUND) by (nonlinear_arith)
        requires
            -DIFF_BOUND <= a <= DIFF_BOUND,
            -DIFF_BOUND <= b <= DIFF_BOUND,
    ;
}

/// The cross product of two small vectors, computed exactly.
pub fn cross_prod(a: &Vector, b: &Vector) -> (r: i128)
    requires
        a.small(),
        b.small(),
    ensures
        r == cross(*a, *b),
{
    proof {
        lemma_small_product(a.x as int, b.y as int);
        lemma_small_product(a.y as int, b.x as int);
    }
    (a.x as i128) * (b.y as i128) - (a.y as i128) * (b.x as i128)
}

/// The squared length of a small vector.
pub fn norm_squared(a: &Vector) -> (r: i128)
    requires
        a.small(),
    ensures
        r == a.x * a.x + a.y * a.y,
{
    proof {
        lemma_small_product(a.x as int, a.x as int);
        lemma_small_product(a.y as int, a.y as int);
    }
    (a.x as i128) * (a.x as i128) + (a.y as i128) * (a.y as i128)
}

/// The squared distance between two points.
pub fn point_dist_squared(u: &Point, v: &Point) -> (r: i128)
    ensures
        r == (u.x - v.x) * (u.x - v.x) + (u.y - v.y) * (u.y - v.y),
{
    let d = point_subtract(u, v);
    norm_squared(&d)
}

/// The orientation of `p` relative to `l`, computed exactly.
pub fn line_orient(l: &Line, p: &Point) -> (r: i128)
    ensures
        r == orient(*l, *p),
{
    let d1 = point_subtract(&l.v, &l.u);
    let d2 = point_subtract(p, &l.u);
    cross_prod(&d1, &d2)
}

/// The distance from `p` to `l`, scaled by the length of `l` (see `dist`).
pub fn line_point_dist(l: &Line, p: &Point) -> (r: i128)
    ensures
        r == dist(*l, *p),
        r >= 0,
{
    let c = line_orient(l, p);
    proof {
        lemma_small_product((l.v.x - l.u.x) as int, (p.y - l.u.y) as int);
        lemma_small_product((l.v.y - l.u.y) as int, (p.x - l.u.x) as int);
    }
    if c < 0 {
        -c
    } else {
        c
    }
}

/// Whether `p` lies strictly outside `l`. An endpoint of `l` never does, and a
/// point on the line itself does not either: collinear points are never promoted.
pub fn line_side_test(l: &Line, p: &Point) -> (r: bool)
    ensures
        r == is_outside(*l, *p),
{
    if l.u == *p || l.v == *p {
        false
    } else {
        let c = line_orient(l, p);
        if c <= 0 {
            false
        } else {
            true
        }
    }
}

/// Of two points, the one further from `l`; `v` wins a tie. The flag tells
/// whether `u` was chosen.
pub fn max_point_from_line(l: &Line, u: &Point, v: &Point) -> (r: (bool, Point))
    ensures
        r.0 == (dist(*l, *u) > dist(*l, *v)),
        r.1 == (if r.0 { *u } else { *v }),
{
    let d1 = line_point_dist(l, u);
    let d2 = line_point_dist(l, v);
    if d1 > d2 {
        (true, *u)
    } else {
        (false, *v)
    }
}

/// Whether `a` comes strictly before `b` in lexicographic order.
pub fn point_lex_lt(a: &Point, b: &Point) -> (r: bool)
    ensures
        r == lex_lt(*a, *b),
{
    a.x < b.x || (a.x == b.x && a.y < b.y)
}

/// The three orientations that a point makes with a triangle's sides add up to
/// the triangle's own orientation.
pub proof fn lemma_orient_split(u: Point, v: Point, p: Point, q: Point)
    ensures
        orient(Line { u, v }, q) == orient(Line { u, v: p }, q) + orient(Line { u: p, v }, q)
            + orient(Line { u, v }, p),
{
    let (vx, vy) = (v.x - u.x, v.y - u.y);
    let (px, py) = (p.x - u.x, p.y - u.y);
    let (qx, qy) = (q.x - u.x, q.y - u.y);
    assert(orient(Line { u: p, v }, q) == (vx - px) * (qy - py) - (vy - py) * (qx - px));
    assert((vx - px) * (qy - py) - (vy - py) * (qx - px) == (vx * qy - vy * qx) - (px * qy - py
        * qx) - (vx * py - vy * px)) by (nonlinear_arith);
}

/// Reversing a line negates every orientation.
pub proof fn lemma_orient_reverse(l: Line, p: Point)
    ensures
        orient(Line { u: l.v, v: l.u }, p) == -orient(l, p),
{
    assert(orient(Line { u: l.v, v: l.u }, p) == -orient(l, p)) by (nonlinear_arith);
}

/// The endpoints of a line lie on it.
pub proof fn lemma_orient_endpoints(l: Line)
    ensures
        orient(l, l.u) == 0,
        orient(l, l.v) == 0,
{
    assert(orient(l, l.u) == 0) by (nonlinear_arith);
    assert(orient(l, l.v) == 0) by (nonlinear_arith);
}

} // verus!
