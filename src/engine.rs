//! The engine that runs quickhull: either recomputing everything on each call,
//! or keeping each recursive step's result under the name of its line, together
//! with the points it was computed from, and reusing it while those are unchanged.
use vstd::prelude::*;

use crate::geometry::{Line, Point, Shape};
use crate::hull::{
    bottom_line, chain, furthest, hull_of, leftmost, lemma_furthest_is_max,
    lemma_outside_shrinks, outside, rightmost, top_line, Extremum, HullError,
};
use crate::names::{lemma_line_words_injective, line_words, name_of_line, Name};
use crate::tree::{Direction, PointTree};

verus! {

/// How an engine treats repeated work.
#[derive(Clone, Copy, Debug, PartialEq, Eq, Structural)]
pub enum Mode {
    /// Every step is computed afresh.
    Naive,
    /// A step whose line and points were seen before returns the result kept then.
    Memoized,
}

/// A kept result: the chain of `line` over `points`, filed under `name`.
pub struct MemoEntry {
    name: Name,
    line: Line,
    points: Vec<Point>,
    chain: Vec<Point>,
}

impl MemoEntry {
    /// The name is the line's content name and the result is the line's chain
    /// over the recorded points.
    pub closed spec fn valid(&self) -> bool {
        &&& self.name@ == line_words(self.line)
        &&& self.chain@ == chain(self.line, self.points@)
    }
}

/// The context that every hull computation runs in.
pub struct Engine {
    mode: Mode,
    entries: Vec<MemoEntry>,
    hits: u64,
    computed: u64,
}

/// The sequence of hull elements that lists the vertices `s`, in order.
pub open spec fn vertices(s: Seq<Point>) -> Seq<Shape> {
    s.map_values(|p: Point| Shape::Point(p))
}

/// Whether two point sequences are equal, element by element.
pub fn points_equal(a: &Vec<Point>, b: &Vec<Point>) -> (r: bool)
    ensures
        r == (a@ == b@),
{
    if a.len() != b.len() {
        return false;
    }
    let mut i: usize = 0;
    while i < a.len()
        invariant
            i <= a@.len(),
            a@.len() == b@.len(),
            forall|j: int| 0 <= j < i ==> a@[j] == b@[j],
        decreases a@.len() - i,
    {
        if a[i] != b[i] {
            return false;
        }
        i = i + 1;
    }
    assert(a@ =~= b@);
    true
}

/// A copy of `a`.
fn copy_points(a: &Vec<Point>) -> (r: Vec<Point>)
    ensures
        r@ == a@,
{
    let mut r: Vec<Point> = Vec::new();
    let mut i: usize = 0;
    while i < a.len()
        invariant
            i <= a@.len(),
            r@ == a@.take(i as int),
        decreases a@.len() - i,
    {
        r.push(a[i]);
        i = i + 1;
        assert(r@ =~= a@.take(i as int));
    }
    assert(a@.take(i as int) =~= a@);
    r
}

/// The vertices `s` as hull elements.
pub fn to_shapes(s: &Vec<Point>) -> (r: Vec<Shape>)
    ensures
        r@ == vertices(s@),
{
    let mut r: Vec<Shape> = Vec::new();
    let mut i: usize = 0;
    while i < s.len()
        invariant
            i <= s@.len(),
            r@ == vertices(s@.take(i as int)),
        decreases s@.len() - i,
    {
        r.push(Shape::Point(s[i]));
        i = i + 1;
        assert(r@ =~= vertices(s@.take(i as int)));
    }
    assert(s@.take(i as int) =~= s@);
    r
}

impl Engine {
    /// Every kept result is the one its line and points give.
    pub closed spec fn wf(&self) -> bool {
        forall|i: int| 0 <= i < self.entries@.len() ==> #[trigger] self.entries@[i].valid()
    }

    /// The mode this engine runs in.
    pub closed spec fn spec_mode(&self) -> Mode {
        self.mode
    }

    /// How many recursive steps this engine has computed rather than reused
    /// (saturating at the largest `u64`).
    pub closed spec fn spec_computed(&self) -> u64 {
        self.computed
    }

    /// How many recursive steps this engine has reused (saturating).
    pub closed spec fn spec_hits(&self) -> u64 {
        self.hits
    }

    /// A result for `l` over the points `s` is kept.
    pub closed spec fn caches(&self, l: Line, s: Seq<Point>) -> bool {
        exists|i: int|
            0 <= i < self.entries@.len() && #[trigger] self.entries@[i].line == l
                && self.entries@[i].points@ == s
    }

    /// Everything that `old` kept, this engine keeps too.
    pub closed spec fn keeps(&self, old: &Engine) -> bool {
        &&& old.entries@.len() <= self.entries@.len()
        &&& forall|i: int|
            0 <= i < old.entries@.len() ==> #[trigger] self.entries@[i] == old.entries@[i]
    }

    /// Running quickhull on `s` would reuse a kept result for each of its two
    /// halves that has points.
    pub open spec fn caches_hull(&self, s: Seq<Point>) -> bool {
        leftmost(s) != rightmost(s) ==> {
            &&& self.caches_step(top_line(s), outside(top_line(s), s))
            &&& self.caches_step(bottom_line(s), outside(bottom_line(s), s))
        }
    }

    /// A step on `l` over `s` needs no computing: it has no points or is kept.
    pub open spec fn caches_step(&self, l: Line, s: Seq<Point>) -> bool {
        s.len() == 0 || self.caches(l, s)
    }

    /// An engine with nothing kept.
    pub fn new(mode: Mode) -> (r: Engine)
        ensures
            r.wf(),
            r.spec_mode() == mode,
            r.spec_computed() == 0,
            r.spec_hits() == 0,
            forall|l: Line, s: Seq<Point>| !#[trigger] r.caches(l, s),
    {
        Engine { mode, entries: Vec::new(), hits: 0, computed: 0 }
    }

    /// The mode this engine runs in.
    pub fn mode(&self) -> (r: Mode)
        ensures
            r == self.spec_mode(),
    {
        self.mode
    }

    /// How many recursive steps were computed rather than reused.
    pub fn computed(&self) -> (r: u64)
        ensures
            r == self.spec_computed(),
    {
        self.computed
    }

    /// How many recursive steps were reused.
    pub fn hits(&self) -> (r: u64)
        ensures
            r == self.spec_hits(),
    {
        self.hits
    }

    proof fn lemma_keeps_caches(&self, old: &Engine, l: Line, s: Seq<Point>)
        requires
            self.keeps(old),
            old.caches(l, s),
        ensures
            self.caches(l, s),
    {
        let i = choose|i: int|
            0 <= i < old.entries@.len() && #[trigger] old.entries@[i].line == l
                && old.entries@[i].points@ == s;
        assert(self.entries@[i] == old.entries@[i]);
    }

    /// The kept result for `l` over `points`, if there is one.
    fn lookup(&self, l: &Line, points: &Vec<Point>) -> (r: Option<Vec<Point>>)
        requires
            self.wf(),
        ensures
            r is None <==> !self.caches(*l, points@),
            r matches Some(c) ==> c@ == chain(*l, points@),
    {
        let name = name_of_line(l);
        let mut i: usize = 0;
        while i < self.entries.len()
            invariant
                self.wf(),
                name@ == line_words(*l),
                i <= self.entries@.len(),
                forall|j: int|
                    0 <= j < i ==> !(#[trigger] self.entries@[j].line == *l
                        && self.entries@[j].points@ == points@),
            decreases self.entries@.len() - i,
        {
            let e = &self.entries[i];
            assert(self.entries@[i as int].valid());
            if e.name.same(&name) && points_equal(&e.points, points) {
                proof {
                    lemma_line_words_injective(e.line, *l);
                }
                return Some(copy_points(&e.chain));
            }
            proof {
                if e.line == *l {
                    assert(e.name@ == name@);
                }
            }
            i = i + 1;
        }
        None
    }

    /// The hull vertices strictly between the ends of `l` that `points` give,
    /// from the start of `l` to its end. In memoized mode the result is kept
    /// under the name of `l`, and a kept result is returned without computing.
    pub fn quickhull_rec(&mut self, l: &Line, points: &Vec<Point>) -> (r: Vec<Point>)
        requires
            old(self).wf(),
        ensures
            r@ == chain(*l, points@),
            final(self).wf(),
            final(self).keeps(old(self)),
            final(self).spec_mode() == old(self).spec_mode(),
            points@.len() == 0 ==> *final(self) == *old(self),
            old(self).spec_mode() == Mode::Memoized ==> final(self).caches_step(*l, points@),
            old(self).spec_mode() == Mode::Memoized && old(self).caches(*l, points@)
                ==> final(self).spec_computed() == old(self).spec_computed(),
        decreases points@.len(),
    {
        if points.len() == 0 {
            return Vec::new();
        }
        if self.mode == Mode::Memoized {
            if let Some(c) = self.lookup(l, points) {
                let ghost pre = *self;
                self.hits = self.hits.saturating_add(1);
                proof {
                    assert(self.entries@ == pre.entries@);
                    let i = choose|i: int|
                        0 <= i < pre.entries@.len() && #[trigger] pre.entries@[i].line == *l
                            && pre.entries@[i].points@ == points@;
                    assert(self.entries@[i] == pre.entries@[i]);
                    assert(self.caches(*l, points@));
                }
                return c;
            }
        }
        let tree = PointTree::from_points(Direction::LeftToRight, points);
        let pivot = match tree.reduce_extremal(&Extremum::FurthestFrom(*l)) {
            Some(p) => p,
            None => {
                return Vec::new();
            },
        };
        let ll = Line { u: l.u, v: pivot };
        let rl = Line { u: pivot, v: l.v };
        let left_points = tree.filter_outside(&ll).to_vec();
        let right_points = tree.filter_outside(&rl).to_vec();
        proof {
            let i = lemma_furthest_is_max(*l, points@);
            lemma_outside_shrinks(ll, points@, i);
            lemma_outside_shrinks(rl, points@, i);
        }
        let ghost before = *self;
        let mut right_chain = self.quickhull_rec(&rl, &right_points);
        let ghost middle = *self;
        let mut out = self.quickhull_rec(&ll, &left_points);
        out.push(pivot);
        out.append(&mut right_chain);
        assert(out@ =~= chain(*l, points@));
        self.computed = self.computed.saturating_add(1);
        if self.mode == Mode::Memoized {
            let entry = MemoEntry {
                name: name_of_line(l),
                line: *l,
                points: copy_points(points),
                chain: copy_points(&out),
            };
            assert(entry.valid());
            let ghost pre = self.entries@;
            self.entries.push(entry);
            assert(self.entries@[pre.len() as int] == entry);
        }
        proof {
            assert forall|i: int| 0 <= i < before.entries@.len() implies #[trigger] self.entries@[i]
                == before.entries@[i] by {
                assert(middle.entries@[i] == before.entries@[i]);
            }
        }
        out
    }

    /// The convex hull of `points`, clockwise, as a sequence of vertices: see
    /// `hull_of`. The result is the same in both modes and whatever the engine
    /// kept before. In memoized mode both halves of the computation are kept,
    /// and when they already were, nothing is computed.
    pub fn quickhull(&mut self, points: &Vec<Point>) -> (r: Result<Vec<Shape>, HullError>)
        requires
            old(self).wf(),
        ensures
            r is Err <==> points@.len() == 0,
            r matches Ok(h) ==> h@ == vertices(hull_of(points@)),
            points@.len() == 0 ==> *final(self) == *old(self),
            final(self).wf(),
            final(self).keeps(old(self)),
            final(self).spec_mode() == old(self).spec_mode(),
            old(self).spec_mode() == Mode::Memoized && points@.len() > 0
                ==> final(self).caches_hull(points@),
            old(self).spec_mode() == Mode::Memoized && points@.len() > 0 && old(self).caches_hull(
                points@,
            ) ==> final(self).spec_computed() == old(self).spec_computed(),
    {
        let tree = PointTree::from_points(Direction::LeftToRight, points);
        let lo = match tree.reduce_extremal(&Extremum::Leftmost) {
            Some(p) => p,
            None => {
                return Err(HullError::EmptyInput);
            },
        };
        let hi = match tree.reduce_extremal(&Extremum::Rightmost) {
            Some(p) => p,
            None => {
                return Err(HullError::EmptyInput);
            },
        };
        if lo == hi {
            let r = vec![Shape::Point(lo)];
            assert(r@ =~= vertices(hull_of(points@)));
            return Ok(r);
        }
        let top = Line { u: lo, v: hi };
        let bottom = Line { u: hi, v: lo };
        let top_points = tree.filter_outside(&top).to_vec();
        let bottom_points = tree.filter_outside(&bottom).to_vec();
        let ghost start = *self;
        let top_chain = self.quickhull_rec(&top, &top_points);
        let ghost middle = *self;
        let mut out = self.quickhull_rec(&bottom, &bottom_points);
        proof {
            if start.spec_mode() == Mode::Memoized {
                if top_points@.len() > 0 {
                    self.lemma_keeps_caches(&middle, top, top_points@);
                }
            }
            assert forall|i: int| 0 <= i < start.entries@.len() implies #[trigger] self.entries@[i]
                == start.entries@[i] by {
                assert(middle.entries@[i] == start.entries@[i]);
            }
            if start.spec_mode() == Mode::Memoized && start.caches_hull(points@) {
                if bottom_points@.len() > 0 {
                    middle.lemma_keeps_caches(&start, bottom, bottom_points@);
                }
            }
        }
        out.push(lo);
        let mut rest = top_chain;
        rest.push(hi);
        out.append(&mut rest);
        assert(out@ =~= hull_of(points@));
        Ok(to_shapes(&out))
    }
}

/// The convex hull of `points` (see `hull_of`), computed without keeping anything.
pub fn quickhull(points: &Vec<Point>) -> (r: Result<Vec<Shape>, HullError>)
    ensures
        r is Err <==> points@.len() == 0,
        r matches Ok(h) ==> h@ == vertices(hull_of(points@)),
{
    let mut engine = Engine::new(Mode::Naive);
    engine.quickhull(points)
}

} // verus!
