//! Names: deterministic cache keys, derived from geometric values (content
//! names) or from positions and branching (structural names).
use vstd::prelude::*;

use crate::geometry::{Line, Point};

verus! {

/// First word of the name of a point.
pub const POINT_TAG: i64 = 1;

/// First word of the name of a line.
pub const LINE_TAG: i64 = 2;

/// First word of the name of a position.
pub const INDEX_TAG: i64 = 3;

/// Last word of the first name that a fork gives.
pub const FORK_FIRST: i64 = 4;

/// Last word of the second name that a fork gives.
pub const FORK_SECOND: i64 = 5;

/// A cache key: a sequence of words, compared word by word.
#[derive(Clone, Debug, PartialEq, Eq, PartialOrd, Ord, Hash)]
pub struct Name {
    pub words: Vec<i64>,
}

impl View for Name {
    type V = Seq<i64>;

    open spec fn view(&self) -> Seq<i64> {
        self.words@
    }
}

/// The words of the name of `p`: its two coordinates, in order.
pub open spec fn point_words(p: Point) -> Seq<i64> {
    seq![POINT_TAG, p.x as i64, p.y as i64]
}

/// The words of the name of `l`: the names of its start and its end, in order.
pub open spec fn line_words(l: Line) -> Seq<i64> {
    seq![LINE_TAG] + point_words(l.u) + point_words(l.v)
}

/// The words of the name of position `i`.
pub open spec fn index_words(i: u32) -> Seq<i64> {
    seq![INDEX_TAG, i as i64]
}

/// The content name of a point.
pub fn name_of_point(p: &Point) -> (r: Name)
    ensures
        r@ == point_words(*p),
{
    let r = Name { words: vec![POINT_TAG, p.x as i64, p.y as i64] };
    assert(r@ =~= point_words(*p));
    r
}

/// The content name of a line: it tells the line's direction apart.
pub fn name_of_line(l: &Line) -> (r: Name)
    ensures
        r@ == line_words(*l),
{
    let r = Name {
        words: vec![
            LINE_TAG,
            POINT_TAG,
            l.u.x as i64,
            l.u.y as i64,
            POINT_TAG,
            l.v.x as i64,
            l.v.y as i64,
        ],
    };
    assert(r@ =~= line_words(*l));
    r
}

/// The structural name of a position in a sequence.
pub fn name_of_index(i: u32) -> (r: Name)
    ensures
        r@ == index_words(i),
{
    let r = Name { words: vec![INDEX_TAG, i as i64] };
    assert(r@ =~= index_words(i));
    r
}

/// Two names made from `n`, distinct from each other and from `n`: one for
/// each branch of a step that would otherwise share `n`.
pub fn fork_name(n: &Name) -> (r: (Name, Name))
    ensures
        r.0@ == n@.push(FORK_FIRST),
        r.1@ == n@.push(FORK_SECOND),
        r.0@ != r.1@,
        r.0@ != n@,
        r.1@ != n@,
{
    let mut a = n.words.clone();
    let mut b = n.words.clone();
    a.push(FORK_FIRST);
    b.push(FORK_SECOND);
    let r = (Name { words: a }, Name { words: b });
    assert(r.0@[n@.len() as int] != r.1@[n@.len() as int]);
    assert(r.0@.len() != n@.len());
    r
}

impl Name {
    /// Whether the two names hold the same words.
    pub fn same(&self, other: &Name) -> (r: bool)
        ensures
            r == (self@ == other@),
    {
        if self.words.len() != other.words.len() {
            return false;
        }
        let mut i: usize = 0;
        while i < self.words.len()
            invariant
                i <= self@.len(),
                self@.len() == other@.len(),
                forall|j: int| 0 <= j < i ==> self@[j] == other@[j],
            decreases self@.len() - i,
        {
            if self.words[i] != other.words[i] {
                return false;
            }
            i = i + 1;
        }
        assert(self@ =~= other@);
        true
    }
}

/// Different points have different names.
pub proof fn lemma_point_words_injective(p: Point, q: Point)
    requires
        point_words(p) == point_words(q),
    ensures
        p == q,
{
    assert(point_words(p)[1] == point_words(q)[1]);
    assert(point_words(p)[2] == point_words(q)[2]);
}

/// Different lines, including one line and its reverse, have different names.
pub proof fn lemma_line_words_injective(l: Line, m: Line)
    requires
        line_words(l) == line_words(m),
    ensures
        l == m,
{
    assert(point_words(l.u) =~= line_words(l).subrange(1, 4));
    assert(point_words(m.u) =~= line_words(m).subrange(1, 4));
    assert(point_words(l.v) =~= line_words(l).subrange(4, 7));
    assert(point_words(m.v) =~= line_words(m).subrange(4, 7));
    lemma_point_words_injective(l.u, m.u);
    lemma_point_words_injective(l.v, m.v);
}

} // verus!
