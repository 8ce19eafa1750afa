//! A balanced binary tree over the points of a sequence, for reductions and
//! partitions of logarithmic depth.
use vstd::prelude::*;

use crate::geometry::{line_point_dist, line_side_test, point_lex_lt, Line, Point};
use crate::hull::{extreme, lemma_extreme_concat, outside, prefers, Extremum};
use crate::sequence::{points_of, PointSequence};

verus! {

/// The order in which a tree lists the points of its sequence.
#[derive(Clone, Copy, Debug, PartialEq, Eq, Structural)]
pub enum Direction {
    /// First point first.
    LeftToRight,
    /// Last point first.
    RightToLeft,
}

/// `s` in the order that `dir` gives.
pub open spec fn directed(dir: Direction, s: Seq<Point>) -> Seq<Point> {
    match dir {
        Direction::LeftToRight => s,
        Direction::RightToLeft => s.reverse(),
    }
}

/// A binary tree whose leaves hold points; inner nodes are plain joins.
pub enum PointTree {
    Empty,
    Leaf(Point),
    Node(Box<PointTree>, Box<PointTree>),
}

impl PointTree {
    /// The points at the leaves, from left to right.
    pub open spec fn leaves(self) -> Seq<Point>
        decreases self,
    {
        match self {
            PointTree::Empty => Seq::empty(),
            PointTree::Leaf(p) => seq![p],
            PointTree::Node(a, b) => a.leaves() + b.leaves(),
        }
    }

    /// The number of nodes on the longest path from the root to a leaf.
    pub open spec fn height(self) -> nat
        decreases self,
    {
        match self {
            PointTree::Empty => 0,
            PointTree::Leaf(_) => 1,
            PointTree::Node(a, b) => 1 + if a.height() >= b.height() {
                a.height()
            } else {
                b.height()
            },
        }
    }
}

/// The smallest `h` with `n <= 2^(h - 1)`, for `n > 0`: the height of a balanced
/// tree with `n` leaves.
pub open spec fn balanced_height(n: nat) -> nat
    decreases n,
{
    if n <= 1 {
        n
    } else {
        1 + balanced_height((n - n / 2) as nat)
    }
}

/// Whether `next` is strictly better than `cur` for `c`.
pub fn prefers_point(c: &Extremum, cur: &Point, next: &Point) -> (r: bool)
    ensures
        r == prefers(*c, *cur, *next),
{
    match c {
        Extremum::FurthestFrom(l) => line_point_dist(l, next) > line_point_dist(l, cur),
        Extremum::Leftmost => point_lex_lt(next, cur),
        Extremum::Rightmost => point_lex_lt(cur, next),
    }
}

proof fn lemma_reverse_split(s: Seq<Point>, lo: int, mid: int, hi: int)
    requires
        0 <= lo <= mid <= hi <= s.len(),
    ensures
        s.subrange(lo, hi).reverse() == s.subrange(mid, hi).reverse() + s.subrange(
            lo,
            mid,
        ).reverse(),
{
    assert(s.subrange(lo, hi).reverse() =~= s.subrange(mid, hi).reverse() + s.subrange(
        lo,
        mid,
    ).reverse());
}

proof fn lemma_balanced_height_monotone(m: nat, n: nat)
    requires
        m <= n,
    ensures
        balanced_height(m) <= balanced_height(n),
    decreases n,
{
    if m > 1 {
        lemma_balanced_height_monotone((m - m / 2) as nat, (n - n / 2) as nat);
    }
}

/// A balanced tree over `points[lo..hi]`, in the order `dir` gives.
fn build_range(dir: Direction, points: &Vec<Point>, lo: usize, hi: usize) -> (r: PointTree)
    requires
        lo <= hi <= points@.len(),
    ensures
        r.leaves() == directed(dir, points@.subrange(lo as int, hi as int)),
        r.height() == balanced_height((hi - lo) as nat),
    decreases hi - lo,
{
    if hi == lo {
        assert(points@.subrange(lo as int, hi as int).reverse() =~= Seq::<Point>::empty());
        assert(points@.subrange(lo as int, hi as int) =~= Seq::<Point>::empty());
        PointTree::Empty
    } else if hi - lo == 1 {
        assert(points@.subrange(lo as int, hi as int) =~= seq![points@[lo as int]]);
        assert(points@.subrange(lo as int, hi as int).reverse() =~= seq![points@[lo as int]]);
        PointTree::Leaf(points[lo])
    } else {
        let mid = lo + (hi - lo) / 2;
        let a = build_range(dir, points, lo, mid);
        let b = build_range(dir, points, mid, hi);
        proof {
            lemma_reverse_split(points@, lo as int, mid as int, hi as int);
            assert(points@.subrange(lo as int, hi as int) =~= points@.subrange(
                lo as int,
                mid as int,
            ) + points@.subrange(mid as int, hi as int));
            let n = (hi - lo) as nat;
            assert(hi - mid == n - n / 2);
            lemma_balanced_height_monotone((mid - lo) as nat, (hi - mid) as nat);
        }
        match dir {
            Direction::LeftToRight => PointTree::Node(Box::new(a), Box::new(b)),
            Direction::RightToLeft => PointTree::Node(Box::new(b), Box::new(a)),
        }
    }
}

impl PointTree {
    /// A balanced tree over `points`, listing them in the order `dir` gives.
    pub fn from_points(dir: Direction, points: &Vec<Point>) -> (r: PointTree)
        ensures
            r.leaves() == directed(dir, points@),
            r.height() == balanced_height(points@.len()),
    {
        let r = build_range(dir, points, 0, points.len());
        assert(points@.subrange(0, points@.len() as int) =~= points@);
        r
    }

    /// A balanced tree over the points of `seq`, listing them in the order `dir` gives.
    pub fn build(dir: Direction, seq: &PointSequence) -> (r: PointTree)
        ensures
            r.leaves() == directed(dir, points_of(seq@)),
            r.height() == balanced_height(points_of(seq@).len()),
    {
        let pts = seq.points();
        PointTree::from_points(dir, &pts)
    }

    /// The first leaf that is best for `c`, or `None` for a tree without leaves.
    /// Each node combines the results of its two subtrees.
    pub fn reduce_extremal(&self, c: &Extremum) -> (r: Option<Point>)
        ensures
            r is None <==> self.leaves().len() == 0,
            r matches Some(p) ==> p == extreme(*c, self.leaves()),
        decreases self,
    {
        match self {
            PointTree::Empty => None,
            PointTree::Leaf(p) => Some(*p),
            PointTree::Node(a, b) => {
                let x = a.reduce_extremal(c);
                let y = b.reduce_extremal(c);
                match (x, y) {
                    (None, y) => {
                        assert(a.leaves() + b.leaves() =~= b.leaves());
                        y
                    },
                    (Some(x), None) => {
                        assert(a.leaves() + b.leaves() =~= a.leaves());
                        Some(x)
                    },
                    (Some(x), Some(y)) => {
                        proof {
                            lemma_extreme_concat(*c, a.leaves(), b.leaves());
                        }
                        if prefers_point(c, &x, &y) {
                            Some(y)
                        } else {
                            Some(x)
                        }
                    },
                }
            },
        }
    }

    /// The tree of the leaves strictly outside `l`, in order, with the same shape
    /// where leaves remain.
    pub fn filter_outside(&self, l: &Line) -> (r: PointTree)
        ensures
            r.leaves() == outside(*l, self.leaves()),
            r.height() <= self.height(),
        decreases self,
    {
        match self {
            PointTree::Empty => {
                assert(outside(*l, Seq::<Point>::empty()) =~= Seq::<Point>::empty());
                PointTree::Empty
            },
            PointTree::Leaf(p) => {
                proof {
                    let s = seq![*p];
                    assert(s.drop_last() =~= Seq::<Point>::empty());
                    assert(outside(*l, s.drop_last()) =~= Seq::<Point>::empty());
                    assert(Seq::<Point>::empty().push(*p) =~= s);
                }
                if line_side_test(l, p) {
                    PointTree::Leaf(*p)
                } else {
                    PointTree::Empty
                }
            },
            PointTree::Node(a, b) => {
                let x = a.filter_outside(l);
                let y = b.filter_outside(l);
                proof {
                    lemma_outside_concat(*l, a.leaves(), b.leaves());
                }
                PointTree::Node(Box::new(x), Box::new(y))
            },
        }
    }

    /// The points at the leaves, from left to right.
    pub fn to_vec(&self) -> (r: Vec<Point>)
        ensures
            r@ == self.leaves(),
        decreases self,
    {
        match self {
            PointTree::Empty => Vec::new(),
            PointTree::Leaf(p) => {
                let r = vec![*p];
                assert(r@ =~= seq![*p]);
                r
            },
            PointTree::Node(a, b) => {
                let mut x = a.to_vec();
                let mut y = b.to_vec();
                x.append(&mut y);
                x
            },
        }
    }
}

/// Keeping the points outside a line commutes with concatenation.
pub proof fn lemma_outside_concat(l: Line, a: Seq<Point>, b: Seq<Point>)
    ensures
        outside(l, a + b) == outside(l, a) + outside(l, b),
    decreases b.len(),
{
    if b.len() == 0 {
        assert(a + b =~= a);
        assert(outside(l, a) + outside(l, b) =~= outside(l, a));
    } else {
        lemma_outside_concat(l, a, b.drop_last());
        assert((a + b).drop_last() =~= a + b.drop_last());
        assert((a + b).last() == b.last());
        if crate::geometry::is_outside(l, b.last()) {
            assert(outside(l, a) + outside(l, b) =~= (outside(l, a) + outside(l, b.drop_last()))
                .push(b.last()));
        }
    }
}

} // verus!
