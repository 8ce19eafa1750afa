//! What holds of every hull that quickhull computes.
use vstd::prelude::*;

use crate::geometry::{
    is_outside, lemma_orient_endpoints, lemma_orient_reverse, lemma_orient_split, orient, Line,
    Point,
};
use crate::names::{lemma_line_words_injective, line_words};
use crate::hull::{
    bottom_line, chain, furthest, hull_of, left_line, leftmost, lemma_furthest_is_max,
    lemma_leftmost_is_min, lemma_outside_members, lemma_outside_shrinks, lemma_rightmost_is_max,
    outside, right_line, rightmost, top_line,
};

verus! {

/// Every vertex of a chain is one of the points it was computed from.
pub proof fn lemma_chain_subset(l: Line, t: Seq<Point>)
    ensures
        forall|q: Point| #[trigger] chain(l, t).contains(q) ==> t.contains(q),
    decreases t.len(),
{
    if t.len() > 0 {
        let p = furthest(l, t);
        let ll = left_line(l, p);
        let rl = right_line(l, p);
        let i = lemma_furthest_is_max(l, t);
        lemma_outside_shrinks(ll, t, i);
        lemma_outside_shrinks(rl, t, i);
        let a = chain(ll, outside(ll, t));
        let b = chain(rl, outside(rl, t));
        lemma_chain_subset(ll, outside(ll, t));
        lemma_chain_subset(rl, outside(rl, t));
        lemma_outside_members(ll, t);
        lemma_outside_members(rl, t);
        assert forall|q: Point| #[trigger] chain(l, t).contains(q) implies t.contains(q) by {
            let c = chain(l, t);
            assert(c == a + seq![p] + b);
            let k = choose|k: int| 0 <= k < c.len() && c[k] == q;
            if k < a.len() {
                assert(a[k] == q);
                assert(a.contains(q));
            } else if k == a.len() {
                assert(t[i] == q);
            } else {
                assert(b[k - a.len() - 1] == q);
                assert(b.contains(q));
            }
        }
    }
}

/// Hull vertices are drawn from the input: no coordinates are made up.
pub proof fn lemma_hull_subset(s: Seq<Point>)
    requires
        s.len() > 0,
    ensures
        forall|q: Point| #[trigger] hull_of(s).contains(q) ==> s.contains(q),
{
    let lo = leftmost(s);
    let hi = rightmost(s);
    let il = lemma_leftmost_is_min(s);
    let ih = lemma_rightmost_is_max(s);
    let top = top_line(s);
    let bot = bottom_line(s);
    lemma_chain_subset(top, outside(top, s));
    lemma_chain_subset(bot, outside(bot, s));
    lemma_outside_members(top, s);
    lemma_outside_members(bot, s);
    assert forall|q: Point| #[trigger] hull_of(s).contains(q) implies s.contains(q) by {
        let h = hull_of(s);
        let k = choose|k: int| 0 <= k < h.len() && h[k] == q;
        if lo == hi {
            assert(s[il] == q);
        } else {
            let a = chain(bot, outside(bot, s));
            let b = chain(top, outside(top, s));
            assert(h == a + seq![lo] + b + seq![hi]);
            if k < a.len() {
                assert(a[k] == q);
                assert(a.contains(q));
            } else if k == a.len() {
                assert(s[il] == q);
            } else if k < a.len() + 1 + b.len() {
                assert(b[k - a.len() - 1] == q);
                assert(b.contains(q));
            } else {
                assert(s[ih] == q);
            }
        }
    }
}

/// A point strictly outside both sides of a step's split would be further from
/// the line than the pivot: the two halves of a step share no point.
pub proof fn lemma_halves_disjoint(l: Line, t: Seq<Point>, q: Point)
    requires
        t.len() > 0,
        forall|k: int| 0 <= k < t.len() ==> orient(l, #[trigger] t[k]) > 0,
        t.contains(q),
    ensures
        !(is_outside(left_line(l, furthest(l, t)), q) && is_outside(
            right_line(l, furthest(l, t)),
            q,
        )),
{
    let p = furthest(l, t);
    let i = lemma_furthest_is_max(l, t);
    let k = choose|k: int| 0 <= k < t.len() && t[k] == q;
    assert(orient(l, t[k]) > 0);
    assert(orient(l, t[i]) > 0);
    lemma_orient_split(l.u, l.v, p, q);
}

/// A chain lists each vertex once, and never an end of its line, when every
/// point it is computed from lies strictly outside the line.
pub proof fn lemma_chain_distinct(l: Line, t: Seq<Point>)
    requires
        forall|k: int| 0 <= k < t.len() ==> orient(l, #[trigger] t[k]) > 0,
    ensures
        chain(l, t).no_duplicates(),
        forall|q: Point| #[trigger] chain(l, t).contains(q) ==> orient(l, q) > 0,
    decreases t.len(),
{
    lemma_chain_subset(l, t);
    assert forall|q: Point| #[trigger] chain(l, t).contains(q) implies orient(l, q) > 0 by {
        assert(t.contains(q));
        let k = choose|k: int| 0 <= k < t.len() && t[k] == q;
        assert(orient(l, t[k]) > 0);
    }
    if t.len() > 0 {
        let p = furthest(l, t);
        let ll = left_line(l, p);
        let rl = right_line(l, p);
        let i = lemma_furthest_is_max(l, t);
        lemma_outside_shrinks(ll, t, i);
        lemma_outside_shrinks(rl, t, i);
        let tl = outside(ll, t);
        let tr = outside(rl, t);
        lemma_outside_members(ll, t);
        lemma_outside_members(rl, t);
        assert forall|k: int| 0 <= k < tl.len() implies orient(ll, #[trigger] tl[k]) > 0 by {
            assert(tl.contains(tl[k]));
        }
        assert forall|k: int| 0 <= k < tr.len() implies orient(rl, #[trigger] tr[k]) > 0 by {
            assert(tr.contains(tr[k]));
        }
        lemma_chain_distinct(ll, tl);
        lemma_chain_distinct(rl, tr);
        lemma_chain_subset(ll, tl);
        lemma_chain_subset(rl, tr);
        lemma_orient_endpoints(ll);
        lemma_orient_endpoints(rl);
        let a = chain(ll, tl);
        let b = chain(rl, tr);
        let m = seq![p];
        assert(m.no_duplicates());
        assert forall|x: int, y: int| 0 <= x < a.len() && 0 <= y < m.len() implies a[x] != m[y] by {
            assert(a.contains(a[x]));
        }
        vstd::seq_lib::lemma_no_dup_in_concat(a, m);
        assert forall|x: int, y: int| 0 <= x < (a + m).len() && 0 <= y < b.len() implies (a
            + m)[x] != b[y] by {
            assert(b.contains(b[y]));
            assert(tr.contains(b[y]));
            if x < a.len() {
                assert(a.contains(a[x]));
                assert(tl.contains(a[x]));
                if a[x] == b[y] {
                    lemma_halves_disjoint(l, t, a[x]);
                }
            }
        }
        vstd::seq_lib::lemma_no_dup_in_concat(a + m, b);
        assert(chain(l, t) == a + m + b);
    }
}

/// A hull lists each vertex once, so it has no more vertices than there are
/// input points.
pub proof fn lemma_hull_bounded(s: Seq<Point>)
    requires
        s.len() > 0,
    ensures
        hull_of(s).no_duplicates(),
        hull_of(s).len() <= s.len(),
{
    let lo = leftmost(s);
    let hi = rightmost(s);
    let h = hull_of(s);
    if lo != hi {
        let top = top_line(s);
        let bot = bottom_line(s);
        let tt = outside(top, s);
        let tb = outside(bot, s);
        lemma_outside_members(top, s);
        lemma_outside_members(bot, s);
        assert forall|k: int| 0 <= k < tt.len() implies orient(top, #[trigger] tt[k]) > 0 by {
            assert(tt.contains(tt[k]));
        }
        assert forall|k: int| 0 <= k < tb.len() implies orient(bot, #[trigger] tb[k]) > 0 by {
            assert(tb.contains(tb[k]));
        }
        lemma_chain_distinct(top, tt);
        lemma_chain_distinct(bot, tb);
        lemma_orient_endpoints(top);
        lemma_orient_endpoints(bot);
        let a = chain(bot, tb);
        let b = chain(top, tt);
        let m1 = seq![lo];
        let m2 = seq![hi];
        assert forall|x: int, y: int| 0 <= x < a.len() && 0 <= y < m1.len() implies a[x]
            != m1[y] by {
            assert(a.contains(a[x]));
        }
        vstd::seq_lib::lemma_no_dup_in_concat(a, m1);
        assert forall|x: int, y: int| 0 <= x < (a + m1).len() && 0 <= y < b.len() implies (a
            + m1)[x] != b[y] by {
            assert(b.contains(b[y]));
            if x < a.len() {
                assert(a.contains(a[x]));
                lemma_orient_reverse(top, a[x]);
            }
        }
        vstd::seq_lib::lemma_no_dup_in_concat(a + m1, b);
        assert forall|x: int, y: int| 0 <= x < (a + m1 + b).len() && 0 <= y < m2.len() implies (a
            + m1 + b)[x] != m2[y] by {
            if x < a.len() {
                assert(a.contains(a[x]));
            } else if x > a.len() {
                assert(b.contains(b[x - a.len() - 1]));
            }
        }
        vstd::seq_lib::lemma_no_dup_in_concat(a + m1 + b, m2);
        assert(h == a + m1 + b + m2);
    }
    lemma_hull_subset(s);
    h.unique_seq_to_set();
    s.lemma_cardinality_of_set();
    assert(h.to_set().subset_of(s.to_set())) by {
        assert forall|q: Point| h.to_set().contains(q) implies s.to_set().contains(q) by {
            assert(h.contains(q));
        }
    }
    vstd::set_lib::lemma_len_subset(h.to_set(), s.to_set());
}

/// Every point of `s` lies on the line through any two of its points.
pub open spec fn all_collinear(s: Seq<Point>) -> bool {
    forall|i: int, j: int, k: int|
        0 <= i < s.len() && 0 <= j < s.len() && 0 <= k < s.len() ==> #[trigger] orient(
            Line { u: s[i], v: s[j] },
            s[k],
        ) == 0
}

/// When all points lie on one line, the hull is the two extreme points of the
/// line alone (one point when all points coincide).
pub proof fn lemma_collinear_hull(s: Seq<Point>)
    requires
        s.len() > 0,
        all_collinear(s),
    ensures
        hull_of(s) == (if leftmost(s) == rightmost(s) {
            seq![leftmost(s)]
        } else {
            seq![leftmost(s), rightmost(s)]
        }),
{
    let il = lemma_leftmost_is_min(s);
    let ih = lemma_rightmost_is_max(s);
    let top = top_line(s);
    let bot = bottom_line(s);
    lemma_outside_members(top, s);
    lemma_outside_members(bot, s);
    if outside(top, s).len() > 0 {
        let q = outside(top, s)[0];
        assert(outside(top, s).contains(q));
        let k = choose|k: int| 0 <= k < s.len() && s[k] == q;
        assert(orient(Line { u: s[il], v: s[ih] }, s[k]) == 0);
    }
    if outside(bot, s).len() > 0 {
        let q = outside(bot, s)[0];
        assert(outside(bot, s).contains(q));
        let k = choose|k: int| 0 <= k < s.len() && s[k] == q;
        assert(orient(Line { u: s[ih], v: s[il] }, s[k]) == 0);
    }
    if leftmost(s) != rightmost(s) {
        assert(hull_of(s) =~= seq![leftmost(s), rightmost(s)]);
    }
}

/// Where a point of `t` leaves the recursion on `l`: it is dropped at a step
/// when it is strictly outside neither line that the step divides into and is
/// not the step's pivot; otherwise it goes down into the half it is outside of.
pub open spec fn dropped(l: Line, t: Seq<Point>, q: Point) -> bool
    decreases t.len(),
    via dropped_decreases
{
    if t.len() == 0 {
        false
    } else {
        let p = furthest(l, t);
        let ll = left_line(l, p);
        let rl = right_line(l, p);
        if is_outside(ll, q) {
            dropped(ll, outside(ll, t), q)
        } else if is_outside(rl, q) {
            dropped(rl, outside(rl, t), q)
        } else {
            q != p
        }
    }
}

#[via_fn]
proof fn dropped_decreases(l: Line, t: Seq<Point>, q: Point) {
    if t.len() > 0 {
        let p = furthest(l, t);
        let i = lemma_furthest_is_max(l, t);
        lemma_outside_shrinks(left_line(l, p), t, i);
        lemma_outside_shrinks(right_line(l, p), t, i);
    }
}

/// A point that a chain leaves out was dropped: at some step it was strictly
/// outside neither of the two dividing lines that would have taken it further.
pub proof fn lemma_chain_drops(l: Line, t: Seq<Point>, q: Point)
    requires
        t.contains(q),
        !chain(l, t).contains(q),
    ensures
        dropped(l, t, q),
    decreases t.len(),
{
    let p = furthest(l, t);
    let ll = left_line(l, p);
    let rl = right_line(l, p);
    let i = lemma_furthest_is_max(l, t);
    lemma_outside_shrinks(ll, t, i);
    lemma_outside_shrinks(rl, t, i);
    let a = chain(ll, outside(ll, t));
    let b = chain(rl, outside(rl, t));
    let c = chain(l, t);
    assert(c == a + seq![p] + b);
    lemma_outside_members(ll, t);
    lemma_outside_members(rl, t);
    if is_outside(ll, q) {
        if a.contains(q) {
            let k = choose|k: int| 0 <= k < a.len() && a[k] == q;
            assert(c[k] == q);
        }
        lemma_chain_drops(ll, outside(ll, t), q);
    } else if is_outside(rl, q) {
        if b.contains(q) {
            let k = choose|k: int| 0 <= k < b.len() && b[k] == q;
            assert(c[a.len() + 1 + k] == q);
        }
        lemma_chain_drops(rl, outside(rl, t), q);
    } else {
        assert(c[a.len() as int] == p);
    }
}

/// Every input point that the hull leaves out is strictly outside neither of
/// the two lines between the extreme points, or was dropped in the recursion
/// on the one it is outside of.
pub proof fn lemma_hull_drops(s: Seq<Point>, q: Point)
    requires
        s.len() > 0,
        s.contains(q),
        !hull_of(s).contains(q),
    ensures
        is_outside(top_line(s), q) ==> dropped(top_line(s), outside(top_line(s), s), q),
        is_outside(bottom_line(s), q) ==> dropped(bottom_line(s), outside(bottom_line(s), s), q),
{
    let lo = leftmost(s);
    let hi = rightmost(s);
    let top = top_line(s);
    let bot = bottom_line(s);
    let h = hull_of(s);
    lemma_outside_members(top, s);
    lemma_outside_members(bot, s);
    if lo == hi {
        let il = lemma_leftmost_is_min(s);
        let ih = lemma_rightmost_is_max(s);
        lemma_orient_endpoints(top);
        lemma_orient_endpoints(bot);
        assert(h[0] == lo);
    } else {
        let a = chain(bot, outside(bot, s));
        let b = chain(top, outside(top, s));
        assert(h == a + seq![lo] + b + seq![hi]);
        if is_outside(top, q) {
            if b.contains(q) {
                let k = choose|k: int| 0 <= k < b.len() && b[k] == q;
                assert(h[a.len() + 1 + k] == q);
            }
            lemma_chain_drops(top, outside(top, s), q);
        }
        if is_outside(bot, q) {
            if a.contains(q) {
                let k = choose|k: int| 0 <= k < a.len() && a[k] == q;
                assert(h[k] == q);
            }
            lemma_chain_drops(bot, outside(bot, s), q);
        }
    }
}

/// The two recursive calls of a step are filed under different names, and
/// neither under the name of the step itself, so they never share a cache entry.
pub proof fn lemma_sibling_names_differ(l: Line, t: Seq<Point>)
    requires
        t.len() > 0,
        forall|k: int| 0 <= k < t.len() ==> orient(l, #[trigger] t[k]) > 0,
    ensures
        line_words(left_line(l, furthest(l, t))) != line_words(right_line(l, furthest(l, t))),
        line_words(left_line(l, furthest(l, t))) != line_words(l),
        line_words(right_line(l, furthest(l, t))) != line_words(l),
{
    let p = furthest(l, t);
    let i = lemma_furthest_is_max(l, t);
    assert(orient(l, t[i]) > 0);
    lemma_orient_endpoints(l);
    if line_words(left_line(l, p)) == line_words(right_line(l, p)) {
        lemma_line_words_injective(left_line(l, p), right_line(l, p));
    }
    if line_words(left_line(l, p)) == line_words(l) {
        lemma_line_words_injective(left_line(l, p), l);
    }
    if line_words(right_line(l, p)) == line_words(l) {
        lemma_line_words_injective(right_line(l, p), l);
    }
}

} // verus!
