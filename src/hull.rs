//! What quickhull computes, as spec functions over sequences of points, and the
//! reductions and partitions that the recursion is made of.
use vstd::prelude::*;

use crate::geometry::{dist, is_outside, lex_lt, line_point_dist, max_point_from_line, Line, Point};

verus! {

/// Why a hull could not be computed.
#[derive(Clone, Copy, Debug, PartialEq, Eq, Structural)]
pub enum HullError {
    /// There is no point to take an extreme of.
    EmptyInput,
}

/// What an extremal reduction looks for.
#[derive(Clone, Copy, Debug, PartialEq, Eq, Structural)]
pub enum Extremum {
    /// The point at the greatest distance from a line.
    FurthestFrom(Line),
    /// The lexicographically smallest point.
    Leftmost,
    /// The lexicographically largest point.
    Rightmost,
}

/// Whether `next` is strictly better than `cur` for `c`.
pub open spec fn prefers(c: Extremum, cur: Point, next: Point) -> bool {
    match c {
        Extremum::FurthestFrom(l) => dist(l, next) > dist(l, cur),
        Extremum::Leftmost => lex_lt(next, cur),
        Extremum::Rightmost => lex_lt(cur, next),
    }
}

/// The better of two points for `c`; the first one on a tie.
pub open spec fn combine(c: Extremum, a: Point, b: Point) -> Point {
    if prefers(c, a, b) {
        b
    } else {
        a
    }
}

/// The first point of `s` that is best for `c`: a later point replaces the
/// current choice only when it is strictly better.
pub open spec fn extreme(c: Extremum, s: Seq<Point>) -> Point
    recommends
        s.len() > 0,
    decreases s.len(),
{
    if s.len() <= 1 {
        s[0]
    } else {
        combine(c, extreme(c, s.drop_last()), s.last())
    }
}

/// The first point of `s` at the greatest distance from `l`.
pub open spec fn furthest(l: Line, s: Seq<Point>) -> Point
    recommends
        s.len() > 0,
{
    extreme(Extremum::FurthestFrom(l), s)
}

/// The first lexicographically smallest point of `s`.
pub open spec fn leftmost(s: Seq<Point>) -> Point
    recommends
        s.len() > 0,
{
    extreme(Extremum::Leftmost, s)
}

/// The first lexicographically largest point of `s`.
pub open spec fn rightmost(s: Seq<Point>) -> Point
    recommends
        s.len() > 0,
{
    extreme(Extremum::Rightmost, s)
}

/// Taking the better of two points is associative.
pub proof fn lemma_combine_assoc(c: Extremum, a: Point, b: Point, d: Point)
    ensures
        combine(c, combine(c, a, b), d) == combine(c, a, combine(c, b, d)),
{
}

/// The extreme of a concatenation is the better of the extremes of its two
/// parts: a reduction may split its input anywhere.
pub proof fn lemma_extreme_concat(c: Extremum, a: Seq<Point>, b: Seq<Point>)
    requires
        a.len() > 0,
        b.len() > 0,
    ensures
        extreme(c, a + b) == combine(c, extreme(c, a), extreme(c, b)),
    decreases b.len(),
{
    let s = a + b;
    assert(s.drop_last() =~= a + b.drop_last());
    assert(s.last() == b.last());
    if b.len() > 1 {
        lemma_extreme_concat(c, a, b.drop_last());
        lemma_combine_assoc(c, extreme(c, a), extreme(c, b.drop_last()), b.last());
    } else {
        assert(b.drop_last().len() == 0);
        assert(a + b.drop_last() =~= a);
    }
}

/// The points of `s` strictly outside `l`, in their order in `s`.
pub open spec fn outside(l: Line, s: Seq<Point>) -> Seq<Point>
    decreases s.len(),
{
    if s.len() == 0 {
        Seq::empty()
    } else {
        let r = outside(l, s.drop_last());
        if is_outside(l, s.last()) {
            r.push(s.last())
        } else {
            r
        }
    }
}

/// The line from the start of `l` to `p`.
pub open spec fn left_line(l: Line, p: Point) -> Line {
    Line { u: l.u, v: p }
}

/// The line from `p` to the end of `l`.
pub open spec fn right_line(l: Line, p: Point) -> Line {
    Line { u: p, v: l.v }
}

/// The hull vertices strictly between `l.u` and `l.v` that the points `s` give,
/// listed from the `l.u` end to the `l.v` end: the chain of the sub-line to the
/// pivot, the pivot, then the chain of the sub-line from the pivot.
pub open spec fn chain(l: Line, s: Seq<Point>) -> Seq<Point>
    decreases s.len(),
    via chain_decreases
{
    if s.len() == 0 {
        Seq::empty()
    } else {
        let p = furthest(l, s);
        let ll = left_line(l, p);
        let rl = right_line(l, p);
        chain(ll, outside(ll, s)) + seq![p] + chain(rl, outside(rl, s))
    }
}

#[via_fn]
proof fn chain_decreases(l: Line, s: Seq<Point>) {
    if s.len() > 0 {
        let p = furthest(l, s);
        let i = lemma_furthest_is_max(l, s);
        lemma_outside_shrinks(left_line(l, p), s, i);
        lemma_outside_shrinks(right_line(l, p), s, i);
    }
}

/// The upper line of a point set: from its leftmost to its rightmost point.
pub open spec fn top_line(s: Seq<Point>) -> Line {
    Line { u: leftmost(s), v: rightmost(s) }
}

/// The lower line of a point set: from its rightmost to its leftmost point.
pub open spec fn bottom_line(s: Seq<Point>) -> Line {
    Line { u: rightmost(s), v: leftmost(s) }
}

/// The convex hull of a non-empty point set, clockwise: the lower chain from the
/// rightmost point back to the leftmost one, the leftmost point, the upper chain,
/// and the rightmost point. When every point is the same point, that point alone.
pub open spec fn hull_of(s: Seq<Point>) -> Seq<Point> {
    let lo = leftmost(s);
    let hi = rightmost(s);
    if lo == hi {
        seq![lo]
    } else {
        chain(bottom_line(s), outside(bottom_line(s), s)) + seq![lo] + chain(
            top_line(s),
            outside(top_line(s), s),
        ) + seq![hi]
    }
}

/// `furthest` is an element of `s` at which no element of `s` is further away.
pub proof fn lemma_furthest_is_max(l: Line, s: Seq<Point>) -> (i: int)
    requires
        s.len() > 0,
    ensures
        0 <= i < s.len(),
        s[i] == furthest(l, s),
        forall|j: int| 0 <= j < s.len() ==> dist(l, #[trigger] s[j]) <= dist(l, furthest(l, s)),
    decreases s.len(),
{
    if s.len() <= 1 {
        0
    } else {
        let k = lemma_furthest_is_max(l, s.drop_last());
        assert(forall|j: int| 0 <= j < s.len() - 1 ==> s[j] == s.drop_last()[j]);
        if dist(l, s.last()) > dist(l, furthest(l, s.drop_last())) {
            s.len() - 1
        } else {
            k
        }
    }
}

/// `leftmost` is an element of `s` that no element of `s` precedes.
pub proof fn lemma_leftmost_is_min(s: Seq<Point>) -> (i: int)
    requires
        s.len() > 0,
    ensures
        0 <= i < s.len(),
        s[i] == leftmost(s),
        forall|j: int| 0 <= j < s.len() ==> !lex_lt(#[trigger] s[j], leftmost(s)),
    decreases s.len(),
{
    if s.len() <= 1 {
        0
    } else {
        let k = lemma_leftmost_is_min(s.drop_last());
        assert(forall|j: int| 0 <= j < s.len() - 1 ==> s[j] == s.drop_last()[j]);
        if lex_lt(s.last(), leftmost(s.drop_last())) {
            s.len() - 1
        } else {
            k
        }
    }
}

/// `rightmost` is an element of `s` that no element of `s` follows.
pub proof fn lemma_rightmost_is_max(s: Seq<Point>) -> (i: int)
    requires
        s.len() > 0,
    ensures
        0 <= i < s.len(),
        s[i] == rightmost(s),
        forall|j: int| 0 <= j < s.len() ==> !lex_lt(rightmost(s), #[trigger] s[j]),
    decreases s.len(),
{
    if s.len() <= 1 {
        0
    } else {
        let k = lemma_rightmost_is_max(s.drop_last());
        assert(forall|j: int| 0 <= j < s.len() - 1 ==> s[j] == s.drop_last()[j]);
        if lex_lt(rightmost(s.drop_last()), s.last()) {
            s.len() - 1
        } else {
            k
        }
    }
}

/// Every point that `outside` keeps is in `s` and strictly outside `l`, and
/// every point of `s` strictly outside `l` is kept.
pub proof fn lemma_outside_members(l: Line, s: Seq<Point>)
    ensures
        outside(l, s).len() <= s.len(),
        forall|q: Point| #[trigger]
            outside(l, s).contains(q) <==> (s.contains(q) && is_outside(l, q)),
    decreases s.len(),
{
    if s.len() > 0 {
        let d = s.drop_last();
        lemma_outside_members(l, d);
        let o = outside(l, s);
        let od = outside(l, d);
        assert forall|q: Point| #[trigger] o.contains(q) <==> (s.contains(q) && is_outside(l, q)) by {
            if s.contains(q) && is_outside(l, q) {
                let j = choose|j: int| 0 <= j < s.len() && s[j] == q;
                if j < s.len() - 1 {
                    assert(d[j] == q);
                    assert(d.contains(q));
                    assert(od.contains(q));
                    let k = choose|k: int| 0 <= k < od.len() && od[k] == q;
                    assert(o[k] == q);
                } else {
                    assert(o == od.push(q));
                    assert(o[od.len() as int] == q);
                }
            }
            if o.contains(q) {
                let k = choose|k: int| 0 <= k < o.len() && o[k] == q;
                if is_outside(l, s.last()) && k == od.len() {
                    assert(s[s.len() - 1] == q);
                } else {
                    assert(od[k] == q);
                    assert(od.contains(q));
                    let j = choose|j: int| 0 <= j < d.len() && d[j] == q;
                    assert(s[j] == q);
                }
            }
        }
    }
}

/// A point of `s` that is not strictly outside `l` makes `outside` shorter than `s`.
pub proof fn lemma_outside_shrinks(l: Line, s: Seq<Point>, i: int)
    requires
        0 <= i < s.len(),
        !is_outside(l, s[i]),
    ensures
        outside(l, s).len() < s.len(),
    decreases s.len(),
{
    let d = s.drop_last();
    if i == s.len() - 1 {
        lemma_outside_members(l, d);
    } else {
        assert(d[i] == s[i]);
        lemma_outside_shrinks(l, d, i);
    }
}

/// The first point of `points` at the greatest distance from `l`, with that
/// distance scaled by the length of `l`.
pub fn furthest_point_from_line(l: &Line, points: &Vec<Point>) -> (r: Result<
    (Point, i128),
    HullError,
>)
    ensures
        r is Err <==> points@.len() == 0,
        r matches Ok((p, d)) ==> p == furthest(*l, points@) && d == dist(*l, p),
{
    if points.len() == 0 {
        return Err(HullError::EmptyInput);
    }
    let mut best = points[0];
    let mut i: usize = 1;
    while i < points.len()
        invariant
            1 <= i <= points@.len(),
            best == furthest(*l, points@.take(i as int)),
        decreases points@.len() - i,
    {
        let (_, q) = max_point_from_line(l, &points[i], &best);
        proof {
            let t = points@.take(i as int + 1);
            assert(t.drop_last() =~= points@.take(i as int));
        }
        best = q;
        i = i + 1;
    }
    assert(points@.take(i as int) =~= points@);
    let d = line_point_dist(l, &best);
    Ok((best, d))
}

} // verus!
