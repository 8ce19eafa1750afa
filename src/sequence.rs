//! The input of a hull computation: an ordered sequence of points with named
//! marks between them. The marks anchor later edits.
use vstd::prelude::*;

use crate::geometry::Point;
use crate::names::Name;

verus! {

/// An element of a point sequence.
#[derive(Clone, Debug, PartialEq, Eq)]
pub enum Item {
    Point(Point),
    Mark(Name),
}

/// The points of `s` in order, without the marks.
pub open spec fn points_of(s: Seq<Item>) -> Seq<Point>
    decreases s.len(),
{
    if s.len() == 0 {
        Seq::empty()
    } else {
        let r = points_of(s.drop_last());
        match s.last() {
            Item::Point(p) => r.push(p),
            Item::Mark(_) => r,
        }
    }
}

/// `it` is a mark whose name has the words `w`.
pub open spec fn is_mark(it: Item, w: Seq<i64>) -> bool {
    match it {
        Item::Mark(n) => n@ == w,
        Item::Point(_) => false,
    }
}

/// The points of a concatenation are the points of its parts.
pub proof fn lemma_points_of_concat(a: Seq<Item>, b: Seq<Item>)
    ensures
        points_of(a + b) == points_of(a) + points_of(b),
    decreases b.len(),
{
    if b.len() == 0 {
        assert(a + b =~= a);
        assert(points_of(a) + points_of(b) =~= points_of(a));
    } else {
        lemma_points_of_concat(a, b.drop_last());
        assert((a + b).drop_last() =~= a + b.drop_last());
        match b.last() {
            Item::Point(p) => {
                assert(points_of(a) + points_of(b) =~= (points_of(a) + points_of(
                    b.drop_last(),
                )).push(p));
            },
            Item::Mark(_) => {},
        }
    }
}

/// The points of a single item.
pub proof fn lemma_points_of_single(it: Item)
    ensures
        points_of(seq![it]) == (match it {
            Item::Point(p) => seq![p],
            Item::Mark(_) => Seq::<Point>::empty(),
        }),
{
    let s = seq![it];
    assert(s.drop_last() =~= Seq::<Item>::empty());
    assert(points_of(s.drop_last()) =~= Seq::<Point>::empty());
    assert(s.last() == it);
    match it {
        Item::Point(p) => {
            assert(Seq::<Point>::empty().push(p) =~= seq![p]);
        },
        Item::Mark(_) => {},
    }
}

/// A sequence of points and marks.
pub struct PointSequence {
    items: Vec<Item>,
}

impl View for PointSequence {
    type V = Seq<Item>;

    closed spec fn view(&self) -> Seq<Item> {
        self.items@
    }
}

impl PointSequence {
    /// The empty sequence.
    pub fn new() -> (r: PointSequence)
        ensures
            r@ == Seq::<Item>::empty(),
    {
        PointSequence { items: Vec::new() }
    }

    /// The sequence of the points `pts`, in order, without marks.
    pub fn from_points(pts: &Vec<Point>) -> (r: PointSequence)
        ensures
            r@ == pts@.map_values(|p: Point| Item::Point(p)),
            points_of(r@) == pts@,
    {
        let mut items: Vec<Item> = Vec::new();
        let mut i: usize = 0;
        while i < pts.len()
            invariant
                i <= pts@.len(),
                points_of(items@) == pts@.take(i as int),
                items@ == pts@.take(i as int).map_values(|p: Point| Item::Point(p)),
            decreases pts@.len() - i,
        {
            let ghost before = items@;
            items.push(Item::Point(pts[i]));
            assert(items@.drop_last() == before);
            i = i + 1;
            assert(points_of(items@) =~= pts@.take(i as int));
            assert(items@ =~= pts@.take(i as int).map_values(|p: Point| Item::Point(p)));
        }
        assert(pts@.take(i as int) =~= pts@);
        PointSequence { items }
    }

    /// Puts `p` in front of the sequence.
    pub fn cons(&mut self, p: Point)
        ensures
            final(self)@ == seq![Item::Point(p)] + old(self)@,
            points_of(final(self)@) == seq![p] + points_of(old(self)@),
    {
        self.items.insert(0, Item::Point(p));
        proof {
            assert(self.items@ =~= seq![Item::Point(p)] + old(self).items@);
            lemma_points_of_concat(seq![Item::Point(p)], old(self).items@);
            lemma_points_of_single(Item::Point(p));
        }
    }

    /// Puts a mark named `name` in front of the sequence; the points stay as they are.
    pub fn mark(&mut self, name: Name)
        ensures
            final(self)@ == seq![Item::Mark(name)] + old(self)@,
            points_of(final(self)@) == points_of(old(self)@),
    {
        self.items.insert(0, Item::Mark(name));
        proof {
            assert(self.items@ =~= seq![Item::Mark(name)] + old(self).items@);
            lemma_points_of_concat(seq![Item::Mark(name)], old(self).items@);
            lemma_points_of_single(Item::Mark(name));
            assert(points_of(self.items@) =~= points_of(old(self).items@));
        }
    }

    /// Appends `p` at the end of the sequence.
    pub fn append(&mut self, p: Point)
        ensures
            final(self)@ == old(self)@.push(Item::Point(p)),
            points_of(final(self)@) == points_of(old(self)@).push(p),
    {
        self.items.push(Item::Point(p));
        assert(self.items@.drop_last() == old(self).items@);
    }

    /// Inserts `p` just after the first mark named `name`. Returns whether there
    /// is such a mark; without one the sequence is left as it is.
    pub fn insert_at_mark(&mut self, name: &Name, p: Point) -> (r: bool)
        ensures
            r == exists|k: int| 0 <= k < old(self)@.len() && is_mark(#[trigger] old(self)@[k], name@),
            !r ==> final(self)@ == old(self)@,
            r ==> exists|k: int|
                0 <= k < old(self)@.len() && is_mark(#[trigger] old(self)@[k], name@) && (forall|
                    j: int,
                | 0 <= j < k ==> !is_mark(#[trigger] old(self)@[j], name@))
                    && final(self)@ == old(self)@.insert(k + 1, Item::Point(p))
                    && points_of(final(self)@) == points_of(old(self)@.take(k + 1)) + seq![p]
                    + points_of(old(self)@.skip(k + 1)),
    {
        let mut i: usize = 0;
        while i < self.items.len()
            invariant
                i <= self@.len(),
                self@ == old(self)@,
                forall|j: int| 0 <= j < i ==> !is_mark(#[trigger] self@[j], name@),
            decreases self@.len() - i,
        {
            let found = match &self.items[i] {
                Item::Mark(n) => n.same(name),
                Item::Point(_) => false,
            };
            if found {
                let ghost s = self.items@;
                let ghost k = i as int;
                self.items.insert(i + 1, Item::Point(p));
                proof {
                    assert(self.items@ =~= s.take(k + 1) + seq![Item::Point(p)] + s.skip(k + 1));
                    lemma_points_of_concat(s.take(k + 1) + seq![Item::Point(p)], s.skip(k + 1));
                    lemma_points_of_concat(s.take(k + 1), seq![Item::Point(p)]);
                    lemma_points_of_single(Item::Point(p));
                    assert(is_mark(s[k], name@));
                }
                return true;
            }
            i = i + 1;
        }
        false
    }

    /// The points of the sequence, in order.
    pub fn points(&self) -> (r: Vec<Point>)
        ensures
            r@ == points_of(self@),
    {
        let mut r: Vec<Point> = Vec::new();
        let mut i: usize = 0;
        while i < self.items.len()
            invariant
                i <= self@.len(),
                r@ == points_of(self@.take(i as int)),
            decreases self@.len() - i,
        {
            proof {
                assert(self@.take(i as int + 1).drop_last() =~= self@.take(i as int));
            }
            match &self.items[i] {
                Item::Point(p) => {
                    r.push(*p);
                },
                Item::Mark(_) => {},
            }
            i = i + 1;
        }
        assert(self@.take(i as int) =~= self@);
        r
    }
}

} // verus!
