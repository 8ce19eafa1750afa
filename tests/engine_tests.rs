use quickhull::engine::{quickhull, Engine, Mode};
use quickhull::geometry::{Line, Point, Shape};
use quickhull::harness::{measure_runtimes, random_points, same_result};
use quickhull::names::{fork_name, name_of_index, name_of_line, name_of_point};
use quickhull::sequence::PointSequence;

fn pt(x: i32, y: i32) -> Point {
    Point { x, y }
}

fn vertices(pts: &[(i32, i32)]) -> Vec<Shape> {
    pts.iter().map(|&(x, y)| Shape::Point(pt(x, y))).collect()
}

fn ring_and_inner_points() -> Vec<Point> {
    [(2, 2), (2, -2), (-2, -2), (-2, 2), (6, 6), (6, -6), (-6, -6), (-6, 6)]
        .iter()
        .map(|&(x, y)| pt(x, y))
        .collect()
}

#[test]
fn incremental_insert_changes_hull_and_modes_agree() {
    let mut seq = PointSequence::new();
    for p in ring_and_inner_points().into_iter().rev() {
        seq.cons(p);
    }
    let anchor = name_of_index(0);
    seq.mark(name_of_index(0));
    let mut naive = Engine::new(Mode::Naive);
    let mut memo = Engine::new(Mode::Memoized);
    let before = seq.points();
    assert_eq!(before, ring_and_inner_points());
    let expected_before = vertices(&[(6, -6), (-6, -6), (-6, 6), (6, 6)]);
    assert_eq!(naive.quickhull(&before).unwrap(), expected_before);
    assert_eq!(memo.quickhull(&before).unwrap(), expected_before);

    assert!(seq.insert_at_mark(&anchor, pt(20, 20)));
    let after = seq.points();
    assert_eq!(after[0], pt(20, 20));
    assert_eq!(after.len(), 9);
    let expected_after = vertices(&[(6, -6), (-6, -6), (-6, 6), (20, 20)]);
    let a = naive.quickhull(&after);
    let b = memo.quickhull(&after);
    assert_eq!(a.clone().unwrap(), expected_after);
    assert!(same_result(&a, &b));
    assert_eq!(a, b);
}

#[test]
fn modes_agree_after_every_edit() {
    let mut seq = PointSequence::from_points(&vec![pt(0, 0), pt(9, 1), pt(4, 8)]);
    seq.mark(name_of_index(7));
    let mut naive = Engine::new(Mode::Naive);
    let mut memo = Engine::new(Mode::Memoized);
    let edits = [(3, 3), (-5, 2), (4, -9), (12, 12), (1, 1), (6, -2), (-7, -7), (0, 15)];
    for (i, &(x, y)) in edits.iter().enumerate() {
        if i % 2 == 0 {
            seq.append(pt(x, y));
        } else {
            assert!(seq.insert_at_mark(&name_of_index(7), pt(x, y)));
        }
        let pts = seq.points();
        let a = naive.quickhull(&pts);
        let b = memo.quickhull(&pts);
        assert_eq!(a, b);
        assert_eq!(a, quickhull(&pts));
    }
}

#[test]
fn replay_is_served_from_the_cache() {
    let pts = vec![pt(0, 0), pt(10, 0), pt(5, 7), pt(5, -7), pt(2, 3), pt(8, -2), pt(9, 4)];
    let mut memo = Engine::new(Mode::Memoized);
    let first = memo.quickhull(&pts).unwrap();
    let computed = memo.computed();
    let hits = memo.hits();
    assert!(computed > 0);
    let second = memo.quickhull(&pts).unwrap();
    assert_eq!(first, second);
    assert_eq!(memo.computed(), computed);
    assert_eq!(memo.hits(), hits + 2);
}

#[test]
fn naive_mode_recomputes() {
    let pts = vec![pt(0, 0), pt(10, 0), pt(5, 7), pt(5, -7)];
    let mut naive = Engine::new(Mode::Naive);
    assert_eq!(naive.mode(), Mode::Naive);
    naive.quickhull(&pts).unwrap();
    let once = naive.computed();
    naive.quickhull(&pts).unwrap();
    assert_eq!(naive.computed(), 2 * once);
    assert_eq!(naive.hits(), 0);
}

#[test]
fn cached_step_is_reused_after_an_unrelated_edit() {
    let mut pts = vec![pt(-10, 0), pt(10, 0), pt(0, 5), pt(0, -5)];
    let mut memo = Engine::new(Mode::Memoized);
    memo.quickhull(&pts).unwrap();
    let computed = memo.computed();
    pts.push(pt(1, 1));
    memo.quickhull(&pts).unwrap();
    assert_eq!(memo.computed(), computed + 1);
    assert!(memo.hits() >= 1);
}

#[test]
fn names_are_distinct() {
    let l = Line { u: pt(1, 2), v: pt(3, 4) };
    let back = Line { u: pt(3, 4), v: pt(1, 2) };
    assert_ne!(name_of_line(&l), name_of_line(&back));
    assert_eq!(name_of_line(&l), name_of_line(&Line { u: pt(1, 2), v: pt(3, 4) }));
    assert_ne!(name_of_point(&pt(1, 2)), name_of_point(&pt(2, 1)));
    let n = name_of_index(3);
    let (a, b) = fork_name(&n);
    assert_ne!(a, b);
    assert_ne!(a, n);
    assert_ne!(b, n);
    assert!(n.same(&name_of_index(3)));
    assert!(!n.same(&a));
}

#[test]
fn sequence_edits() {
    let mut seq = PointSequence::new();
    seq.cons(pt(2, 2));
    seq.mark(name_of_index(1));
    seq.cons(pt(1, 1));
    assert_eq!(seq.points(), vec![pt(1, 1), pt(2, 2)]);
    assert!(!seq.insert_at_mark(&name_of_index(9), pt(5, 5)));
    assert_eq!(seq.points(), vec![pt(1, 1), pt(2, 2)]);
    assert!(seq.insert_at_mark(&name_of_index(1), pt(5, 5)));
    assert_eq!(seq.points(), vec![pt(1, 1), pt(5, 5), pt(2, 2)]);
    seq.append(pt(7, 7));
    assert_eq!(seq.points(), vec![pt(1, 1), pt(5, 5), pt(2, 2), pt(7, 7)]);
}

#[test]
fn random_points_go_in_front_within_limit() {
    let start = vec![pt(100, 100), pt(-100, 50)];
    let pts = random_points(500, 3, start.clone());
    assert_eq!(pts.len(), 502);
    assert_eq!(pts[500..].to_vec(), start);
    for p in &pts[..500] {
        assert!(-3 <= p.x && p.x < 3 && -3 <= p.y && p.y < 3);
    }
    let one = random_points(1, 10, vec![pt(100, 100)]);
    assert_eq!(one.len(), 2);
    assert_eq!(one[1], pt(100, 100));
    assert!(-10 <= one[0].x && one[0].x < 10);
    let ones = random_points(200, 1, Vec::new());
    assert!(ones.iter().all(|p| (p.x == -1 || p.x == 0) && (p.y == -1 || p.y == 0)));
}

#[test]
fn random_points_with_none_to_add() {
    let start = vec![pt(4, 4)];
    assert_eq!(random_points(0, 0, start.clone()), start);
    assert_eq!(random_points(0, -5, Vec::new()), Vec::new());
}

#[test]
fn measure_runtimes_rows() {
    let rows = measure_runtimes(14, 2, 2).unwrap();
    let ns: Vec<usize> = rows.iter().map(|r| r.0).collect();
    assert_eq!(ns, vec![11, 13]);
    let rows = measure_runtimes(10, 1, 1).unwrap();
    assert!(rows.is_empty());
    let rows = measure_runtimes(12, 3, 0).unwrap();
    assert!(rows.is_empty());
    let rows = measure_runtimes(16, 3, 1).unwrap();
    let ns: Vec<usize> = rows.iter().map(|r| r.0).collect();
    assert_eq!(ns, vec![12, 15]);
}
