//! Runs quickhull in both modes over a growing random point set, checks that
//! the two agree after every added point, and times them.
use vstd::prelude::*;

use rand::Rng;

use crate::engine::{Engine, Mode};
use crate::geometry::{Point, Shape};
use crate::hull::HullError;

verus! {

/// Relies on `rand::Rng::gen_range` over `rand::thread_rng()` (rand 0.8): a
/// value drawn from the half-open range `-limit..limit`, which is not empty.
#[verifier::external_body]
fn random_coordinate(limit: i32) -> (r: i32)
    requires
        limit > 0,
    ensures
        -limit <= r < limit,
{
    rand::thread_rng().gen_range(-limit..limit)
}

/// Relies on `time::precise_time_ns` (time 0.1): a high-resolution counter in
/// nanoseconds from an unspecified start. Nothing is assumed of its values.
#[verifier::external_body]
fn clock_ns() -> (r: u64) {
    time::precise_time_ns()
}

/// Why a benchmark run stopped.
#[derive(Clone, Copy, Debug, PartialEq, Eq, Structural)]
pub enum HarnessError {
    /// The two modes gave different hulls for the points at this count.
    Divergence(usize),
}

/// Every point of `s` has both coordinates in `-limit..limit`.
pub open spec fn within(s: Seq<Point>, limit: int) -> bool {
    forall|i: int| 0 <= i < s.len() ==> -limit <= #[trigger] s[i].x < limit && -limit <= s[i].y
        < limit
}

/// `n` random points followed by `accum`: the new points go in front. Each new
/// point has both coordinates in `-limit..limit`.
pub fn random_points(n: usize, limit: i32, accum: Vec<Point>) -> (r: Vec<Point>)
    requires
        n > 0 ==> limit > 0,
    ensures
        r@.len() == accum@.len() + n,
        r@.skip(n as int) == accum@,
        within(r@.take(n as int), limit as int),
        n == 0 ==> r@ == accum@,
{
    let mut out: Vec<Point> = Vec::new();
    let mut k: usize = 0;
    while k < n
        invariant
            n > 0 ==> limit > 0,
            k <= n,
            out@.len() == k,
            within(out@, limit as int),
        decreases n - k,
    {
        let x = random_coordinate(limit);
        let y = random_coordinate(limit);
        out.push(Point { x, y });
        k = k + 1;
    }
    let ghost fresh = out@;
    let mut rest = accum;
    out.append(&mut rest);
    proof {
        assert(out@.skip(n as int) =~= accum@);
        assert(out@.take(n as int) =~= fresh);
        if n == 0 {
            assert(out@ =~= accum@);
        }
    }
    out
}

/// Two hull results are the same: equal hulls, or equal errors.
pub open spec fn same_hull(
    a: Result<Vec<Shape>, HullError>,
    b: Result<Vec<Shape>, HullError>,
) -> bool {
    match a {
        Ok(x) => b is Ok && x@ == b->Ok_0@,
        Err(e) => b is Err && e == b->Err_0,
    }
}

/// Whether two hull sequences are equal.
fn shapes_equal(x: &Vec<Shape>, y: &Vec<Shape>) -> (r: bool)
    ensures
        r == (x@ == y@),
{
    if x.len() != y.len() {
        return false;
    }
    let mut i: usize = 0;
    while i < x.len()
        invariant
            i <= x@.len(),
            x@.len() == y@.len(),
            forall|j: int| 0 <= j < i ==> x@[j] == y@[j],
        decreases x@.len() - i,
    {
        if x[i] != y[i] {
            assert(x@[i as int] != y@[i as int]);
            return false;
        }
        i = i + 1;
    }
    assert(x@ =~= y@);
    true
}

/// Whether two hull results are the same.
pub fn same_result(a: &Result<Vec<Shape>, HullError>, b: &Result<Vec<Shape>, HullError>) -> (r:
    bool)
    ensures
        r == same_hull(*a, *b),
{
    match (a, b) {
        (Ok(x), Ok(y)) => shapes_equal(x, y),
        (Err(e), Err(f)) => *e == *f,
        _ => false,
    }
}

/// The number of steps that a run with these settings takes.
pub open spec fn step_count(max_n: usize, step_size: usize) -> int {
    (max_n - 10) / (step_size as int)
}

/// Starting from 9 random points, adds `step_size` random points per step and
/// times both modes on the grown set, `iters` times each. A row holds the number
/// of points timed, `step * step_size + 9`, and the mean time of each mode in
/// nanoseconds, the naive one first. Both modes always agree.
pub fn measure_runtimes(max_n: usize, step_size: usize, iters: usize) -> (r: Result<
    Vec<(usize, u64, u64)>,
    HarnessError,
>)
    requires
        max_n >= 10,
        step_size > 0,
        step_count(max_n, step_size) >= 1 ==> iters > 0,
    ensures
        r is Ok,
        r matches Ok(rows) ==> rows@.len() == step_count(max_n, step_size) && forall|i: int|
            0 <= i < rows@.len() ==> #[trigger] rows@[i].0 == (i + 1) * step_size + 9,
{
    let mut naive = Engine::new(Mode::Naive);
    let mut memo = Engine::new(Mode::Memoized);
    let mut rows: Vec<(usize, u64, u64)> = Vec::new();
    let mut points = random_points(9, 10, Vec::new());
    let the_end: usize = (max_n - 10) / step_size + 1;
    let runs = iters as u64;
    let mut ii: usize = 1;
    while ii < the_end
        invariant
            1 <= ii <= the_end,
            max_n >= 10,
            the_end == (max_n - 10) / (step_size as int) + 1,
            step_size > 0,
            the_end > 1 ==> runs > 0,
            runs == iters,
            points@.len() == 9 + (ii - 1) * step_size,
            naive.wf(),
            memo.wf(),
            naive.spec_mode() == Mode::Naive,
            memo.spec_mode() == Mode::Memoized,
            rows@.len() == ii - 1,
            forall|i: int| 0 <= i < rows@.len() ==> #[trigger] rows@[i].0 == (i + 1) * step_size + 9,
        decreases the_end - ii,
    {
        assert(ii * step_size <= max_n - 10) by (nonlinear_arith)
            requires
                ii < the_end,
                the_end == (max_n - 10) / (step_size as int) + 1,
                step_size > 0,
                max_n >= 10,
        ;
        assert((ii - 1) * step_size + step_size == ii * step_size) by (nonlinear_arith);
        points = random_points(step_size, 1000, points);
        let n: usize = points.len();
        let mut naive_total: u64 = 0;
        let mut memo_total: u64 = 0;
        let mut k: usize = 0;
        while k < iters
            invariant
                k <= iters,
                naive.wf(),
                memo.wf(),
                naive.spec_mode() == Mode::Naive,
                memo.spec_mode() == Mode::Memoized,
            decreases iters - k,
        {
            let t0 = clock_ns();
            let a = naive.quickhull(&points);
            let t1 = clock_ns();
            let b = memo.quickhull(&points);
            let t2 = clock_ns();
            if !same_result(&a, &b) {
                return Err(HarnessError::Divergence(n));
            }
            naive_total = naive_total.saturating_add(t1.saturating_sub(t0));
            memo_total = memo_total.saturating_add(t2.saturating_sub(t1));
            k = k + 1;
        }
        rows.push((n, naive_total / runs, memo_total / runs));
        ii = ii + 1;
    }
    Ok(rows)
}

} // verus!
