use quickhull::engine::{quickhull, Engine, Mode};
use quickhull::geometry::{
    cross_prod, line_point_dist, line_side_test, max_point_from_line, norm_squared,
    point_dist_squared, point_subtract, Line, Point, Shape,
};
use quickhull::hull::{furthest_point_from_line, Extremum, HullError};
use quickhull::names::name_of_index;
use quickhull::sequence::PointSequence;
use quickhull::tree::{Direction, PointTree};

fn pt(x: i32, y: i32) -> Point {
    Point { x, y }
}

fn vertices(pts: &[(i32, i32)]) -> Vec<Shape> {
    pts.iter().map(|&(x, y)| Shape::Point(pt(x, y))).collect()
}

#[test]
fn test_fns() {
    let p = pt(3, 4);
    let q = pt(0, 0);
    let l = Line { u: p, v: q };

    let t = point_subtract(&p, &q);
    println!("Difference between p and q is ({}, {})", t.x, t.y);
    assert_eq!((t.x, t.y), (3, 4));
    println!("Squared distance between p and q is {}", point_dist_squared(&l.u, &l.v));
    assert_eq!(point_dist_squared(&l.u, &l.v), 25);
    println!("Squared magnitude of vector p is {}", norm_squared(&p.as_vector()));
    assert_eq!(norm_squared(&p.as_vector()), 25);
    println!("Cross product of vectors p and q is {}", cross_prod(&p.as_vector(), &q.as_vector()));
    assert_eq!(cross_prod(&p.as_vector(), &q.as_vector()), 0);

    let r = pt(12, -3);
    println!("Scaled distance from line to r is {}", line_point_dist(&l, &r));
    assert_eq!(line_point_dist(&l, &r), 57);

    println!("Point r is on {} side of line", line_side_test(&l, &r));
    assert!(line_side_test(&l, &r));

    let points = vec![r, q, p];
    let (furthest, dist) = furthest_point_from_line(&l, &points).unwrap();
    println!("Furthest point from line l is ({}, {}), at scaled dist = {}.", furthest.x, furthest.y, dist);
    assert_eq!((furthest, dist), (r, 57));
}

#[test]
fn test_qh_fails() {
    let points = vec![pt(0, -1), pt(-1, 0), pt(0, 1), pt(1, 0), pt(0, 0)];
    let ans = vertices(&[(0, -1), (-1, 0), (0, 1), (1, 0)]);
    let hull = quickhull(&points).unwrap();
    assert_eq!(hull, ans);
}

#[test]
fn subtract_cross_and_norm_exact() {
    let v = point_subtract(&pt(i32::MAX, i32::MIN), &pt(i32::MIN, i32::MAX));
    assert_eq!((v.x, v.y), (4294967295, -4294967295));
    assert_eq!(norm_squared(&v), 2 * 4294967295i128 * 4294967295i128);
    let w = point_subtract(&pt(2, 5), &pt(-1, 1));
    assert_eq!((w.x, w.y), (3, 4));
    assert_eq!(cross_prod(&w, &pt(1, 0).as_vector()), -4);
    assert_eq!(cross_prod(&pt(1, 0).as_vector(), &w), 4);
}

#[test]
fn side_test_rules() {
    let l = Line { u: pt(0, 0), v: pt(10, 0) };
    assert!(line_side_test(&l, &pt(5, 1)));
    assert!(!line_side_test(&l, &pt(5, -1)));
    assert!(!line_side_test(&l, &pt(5, 0)));
    assert!(!line_side_test(&l, &pt(20, 0)));
    assert!(!line_side_test(&l, &pt(0, 0)));
    assert!(!line_side_test(&l, &pt(10, 0)));
    let back = Line { u: pt(10, 0), v: pt(0, 0) };
    assert!(line_side_test(&back, &pt(5, -1)));
}

#[test]
fn max_point_prefers_second_on_tie() {
    let l = Line { u: pt(0, 0), v: pt(10, 0) };
    assert_eq!(max_point_from_line(&l, &pt(1, 3), &pt(2, 2)), (true, pt(1, 3)));
    assert_eq!(max_point_from_line(&l, &pt(1, 2), &pt(7, -2)), (false, pt(7, -2)));
    assert_eq!(line_point_dist(&l, &pt(7, -2)), 20);
}

#[test]
fn furthest_keeps_first_of_equals() {
    let l = Line { u: pt(0, 0), v: pt(10, 0) };
    let pts = vec![pt(1, 1), pt(3, 4), pt(8, -4), pt(2, 4)];
    assert_eq!(furthest_point_from_line(&l, &pts), Ok((pt(3, 4), 40)));
}

#[test]
fn empty_input_is_an_error() {
    let l = Line { u: pt(0, 0), v: pt(1, 0) };
    assert_eq!(furthest_point_from_line(&l, &Vec::new()), Err(HullError::EmptyInput));
    let empty = PointTree::from_points(Direction::LeftToRight, &Vec::new());
    assert_eq!(empty.reduce_extremal(&Extremum::Leftmost), None);
    assert_eq!(quickhull(&Vec::new()), Err(HullError::EmptyInput));
    let mut e = Engine::new(Mode::Memoized);
    assert_eq!(e.quickhull(&Vec::new()), Err(HullError::EmptyInput));
}

#[test]
fn extremes_are_lexicographic() {
    let pts = vec![pt(0, 5), pt(-3, 2), pt(-3, -1), pt(4, 0), pt(4, 9)];
    for dir in [Direction::LeftToRight, Direction::RightToLeft] {
        let t = PointTree::from_points(dir, &pts);
        assert_eq!(t.reduce_extremal(&Extremum::Leftmost), Some(pt(-3, -1)));
        assert_eq!(t.reduce_extremal(&Extremum::Rightmost), Some(pt(4, 9)));
    }
}

#[test]
fn filter_keeps_order_of_outside_points() {
    let l = Line { u: pt(0, 0), v: pt(10, 0) };
    let pts = vec![pt(3, 1), pt(4, -1), pt(0, 0), pt(6, 0), pt(1, 7)];
    let t = PointTree::from_points(Direction::LeftToRight, &pts);
    assert_eq!(t.filter_outside(&l).to_vec(), vec![pt(3, 1), pt(1, 7)]);
    let r = PointTree::from_points(Direction::RightToLeft, &pts);
    assert_eq!(r.filter_outside(&l).to_vec(), vec![pt(1, 7), pt(3, 1)]);
}

#[test]
fn inside_outside_separation() {
    let ring = [(6, 6), (6, -6), (-6, -6), (-6, 6)];
    let inner = [(2, 2), (2, -2), (-2, -2), (-2, 2)];
    let expected = vertices(&[(6, -6), (-6, -6), (-6, 6), (6, 6)]);
    let mut a: Vec<Point> = inner.iter().chain(ring.iter()).map(|&(x, y)| pt(x, y)).collect();
    assert_eq!(quickhull(&a).unwrap(), expected);
    a.reverse();
    assert_eq!(quickhull(&a).unwrap(), expected);
    let b: Vec<Point> = ring.iter().chain(inner.iter()).map(|&(x, y)| pt(x, y)).collect();
    assert_eq!(quickhull(&b).unwrap(), expected);
}

#[test]
fn collinear_points_give_the_two_ends() {
    let pts = vec![pt(-10, 0), pt(0, 0), pt(10, 0)];
    assert_eq!(quickhull(&pts).unwrap(), vertices(&[(-10, 0), (10, 0)]));
    let diag = vec![pt(3, 3), pt(-1, -1), pt(7, 7), pt(0, 0)];
    assert_eq!(quickhull(&diag).unwrap(), vertices(&[(-1, -1), (7, 7)]));
    let vertical = vec![pt(0, 4), pt(0, -2), pt(0, 1)];
    assert_eq!(quickhull(&vertical).unwrap(), vertices(&[(0, -2), (0, 4)]));
}

#[test]
fn single_and_repeated_points() {
    assert_eq!(quickhull(&vec![pt(5, -5)]).unwrap(), vertices(&[(5, -5)]));
    assert_eq!(quickhull(&vec![pt(1, 1), pt(1, 1), pt(1, 1)]).unwrap(), vertices(&[(1, 1)]));
    let dup = vec![pt(0, 0), pt(4, 0), pt(2, 3), pt(2, 3), pt(0, 0)];
    assert_eq!(quickhull(&dup).unwrap(), vertices(&[(0, 0), (2, 3), (4, 0)]));
}

#[test]
fn hull_is_drawn_from_input_and_bounded() {
    let mut pts = Vec::new();
    let mut s: i64 = 17;
    for _ in 0..200 {
        s = (s * 1103515245 + 12345) % 2147483648;
        let x = (s % 201) as i32 - 100;
        s = (s * 1103515245 + 12345) % 2147483648;
        let y = (s % 201) as i32 - 100;
        pts.push(pt(x, y));
    }
    let hull = quickhull(&pts).unwrap();
    assert!(hull.len() <= pts.len());
    assert!(hull.len() >= 3);
    for (i, h) in hull.iter().enumerate() {
        match h {
            Shape::Point(p) => assert!(pts.contains(p)),
            Shape::Line(_) => panic!("a hull holds vertices only"),
        }
        assert!(!hull[i + 1..].contains(h));
    }
    let vs: Vec<Point> = hull
        .iter()
        .map(|h| match h {
            Shape::Point(p) => *p,
            Shape::Line(_) => unreachable!(),
        })
        .collect();
    for i in 0..vs.len() {
        let edge = Line { u: vs[i], v: vs[(i + 1) % vs.len()] };
        for p in &pts {
            assert!(!line_side_test(&edge, p));
        }
    }
}

#[test]
fn extreme_coordinates_are_exact() {
    let m = i32::MAX;
    let n = i32::MIN;
    let pts = vec![pt(n, n), pt(m, m), pt(n, m), pt(m, n), pt(0, 0)];
    assert_eq!(quickhull(&pts).unwrap(), vertices(&[(m, n), (n, n), (n, m), (m, m)]));
}

#[test]
fn tree_follows_direction() {
    let mut seq = PointSequence::new();
    for i in (0..5).rev() {
        seq.cons(pt(i, i * i));
    }
    seq.mark(name_of_index(0));
    let fwd = PointTree::build(Direction::LeftToRight, &seq);
    assert_eq!(fwd.to_vec(), vec![pt(0, 0), pt(1, 1), pt(2, 4), pt(3, 9), pt(4, 16)]);
    let back = PointTree::build(Direction::RightToLeft, &seq);
    assert_eq!(back.to_vec(), vec![pt(4, 16), pt(3, 9), pt(2, 4), pt(1, 1), pt(0, 0)]);
}

#[test]
fn reduction_keeps_first_of_equals_on_any_split() {
    let l = Line { u: pt(0, 0), v: pt(10, 0) };
    let pts = vec![pt(1, 1), pt(3, 4), pt(8, -4), pt(2, 4), pt(5, 2), pt(6, 4), pt(7, 0)];
    for n in 1..=pts.len() {
        let part: Vec<Point> = pts[..n].to_vec();
        let t = PointTree::from_points(Direction::LeftToRight, &part);
        let expected = furthest_point_from_line(&l, &part).unwrap().0;
        assert_eq!(t.reduce_extremal(&Extremum::FurthestFrom(l)), Some(expected));
    }
    let t = PointTree::from_points(Direction::RightToLeft, &pts);
    assert_eq!(t.reduce_extremal(&Extremum::FurthestFrom(l)), Some(pt(6, 4)));
}
