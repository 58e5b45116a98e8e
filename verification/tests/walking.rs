use gosper_curve::bounds::Bounds;
use gosper_curve::curve::generate;
use gosper_curve::symbol::Node;
use gosper_curve::symbol::Node::{A, B, L, R};
use gosper_curve::turtle::{Point, Points};

fn cartesian(p: Point) -> (f64, f64) {
    (p.x_halves as f64 * 0.5, p.y_rows as f64 * f64::sqrt(0.75))
}

fn walk(nodes: &[Node]) -> Vec<Point> {
    let mut points = Points::from(nodes);
    let mut out = Vec::new();
    while let Some(p) = points.next() {
        out.push(p);
    }
    out
}

fn at(x_halves: i128, y_rows: i128) -> Point {
    Point { x_halves, y_rows }
}

// The walk in floating point, adding one step at a time.
fn float_walk(nodes: &[Node]) -> Vec<(f64, f64)> {
    let s = f64::sqrt(0.75);
    let steps = [(1.0, 0.0), (0.5, s), (-0.5, s), (-1.0, 0.0), (-0.5, -s), (0.5, -s)];
    let mut dir = 0usize;
    let (mut x, mut y) = (0.0f64, 0.0f64);
    let mut out = Vec::new();
    for node in nodes {
        match node {
            Node::L => dir = (dir + 1) % 6,
            Node::R => dir = (dir + 5) % 6,
            _ => {
                x += steps[dir].0;
                y += steps[dir].1;
                out.push((x, y));
            }
        }
    }
    out
}

#[test]
fn seed_walk_is_one_step_east() {
    let c = generate(0).unwrap();
    let points: Vec<(f64, f64)> = c.points().into_iter().map(cartesian).collect();
    assert_eq!(points, vec![(1.0, 0.0)]);
    let b = c.bounds();
    assert_eq!(b.max_y_rows as f64 * f64::sqrt(0.75), 0.0);
    assert_eq!(b.max_x_halves as f64 * 0.5, 1.0);
    assert_eq!(b.min_y_rows as f64 * f64::sqrt(0.75), 0.0);
    assert_eq!(b.min_x_halves as f64 * 0.5, 0.0);
    assert_eq!(b, Bounds { max_y_rows: 0, max_x_halves: 2, min_y_rows: 0, min_x_halves: 0 });
}

#[test]
fn first_generation_walk_has_seven_points() {
    let c = generate(1).unwrap();
    let points = c.points();
    assert_eq!(points.len(), 7);
    assert_eq!(cartesian(points[0]), (1.0, 0.0));
}

#[test]
fn first_generation_walk_point_by_point() {
    let c = generate(1).unwrap();
    assert_eq!(
        c.points(),
        vec![at(2, 0), at(3, 1), at(1, 1), at(0, 2), at(2, 2), at(4, 2), at(5, 1)]
    );
    assert_eq!(
        c.bounds(),
        Bounds { max_y_rows: 2, max_x_halves: 5, min_y_rows: 0, min_x_halves: 0 }
    );
}

#[test]
fn first_generation_walk_in_cartesian_coordinates() {
    let s = f64::sqrt(0.75);
    let c = generate(1).unwrap();
    let points: Vec<(f64, f64)> = c.points().into_iter().map(cartesian).collect();
    assert_eq!(
        points,
        vec![
            (1.0, 0.0),
            (1.5, s),
            (0.5, s),
            (0.0, 2.0 * s),
            (1.0, 2.0 * s),
            (2.0, 2.0 * s),
            (2.5, s)
        ]
    );
}

#[test]
fn each_heading_has_its_own_step() {
    assert_eq!(walk(&[A]), vec![at(2, 0)]);
    assert_eq!(walk(&[L, A]), vec![at(1, 1)]);
    assert_eq!(walk(&[L, L, A]), vec![at(-1, 1)]);
    assert_eq!(walk(&[L, L, L, A]), vec![at(-2, 0)]);
    assert_eq!(walk(&[L, L, L, L, A]), vec![at(-1, -1)]);
    assert_eq!(walk(&[L, L, L, L, L, A]), vec![at(1, -1)]);
    assert_eq!(walk(&[L, L, L, L, L, L, A]), vec![at(2, 0)]);
}

#[test]
fn each_heading_in_cartesian_coordinates() {
    let s = f64::sqrt(0.75);
    let expected = [(1.0, 0.0), (0.5, s), (-0.5, s), (-1.0, 0.0), (-0.5, -s), (0.5, -s)];
    for (turns, want) in expected.iter().enumerate() {
        let mut nodes = vec![L; turns];
        nodes.push(B);
        let points = walk(&nodes);
        assert_eq!(points.len(), 1);
        assert_eq!(cartesian(points[0]), *want);
    }
}

#[test]
fn right_turn_is_five_left_turns() {
    assert_eq!(walk(&[R, A]), vec![at(1, -1)]);
    assert_eq!(walk(&[R, A]), walk(&[L, L, L, L, L, A]));
    assert_eq!(walk(&[R, R, A]), vec![at(-1, -1)]);
    assert_eq!(walk(&[L, R, A]), vec![at(2, 0)]);
    assert_eq!(walk(&[R, R, R, R, R, R, A]), vec![at(2, 0)]);
}

#[test]
fn both_drawing_symbols_move_alike() {
    assert_eq!(walk(&[A, L, A]), walk(&[B, L, B]));
    assert_eq!(walk(&[A, A, B]), vec![at(2, 0), at(4, 0), at(6, 0)]);
}

#[test]
fn turns_yield_no_point() {
    assert_eq!(walk(&[]), vec![]);
    assert_eq!(walk(&[L, R, L, L]), vec![]);
    let mut points = Points::from(&[L, R]);
    assert_eq!(points.next(), None);
    assert_eq!(points.next(), None);
}

#[test]
fn walk_stays_exhausted() {
    let mut points = Points::from(&[L, A, L]);
    assert_eq!(points.next(), Some(at(1, 1)));
    assert_eq!(points.next(), None);
    assert_eq!(points.next(), None);
}

#[test]
fn trailing_and_leading_turns_are_skipped() {
    let mut points = Points::from(&[L, L, A, R, R, R, B, L]);
    assert_eq!(points.next(), Some(at(-1, 1)));
    assert_eq!(points.next(), Some(at(0, 0)));
    assert_eq!(points.next(), None);
}

#[test]
fn one_point_per_segment() {
    for n in 0..6 {
        let c = generate(n).unwrap();
        assert_eq!(c.points().len(), c.segments());
        assert_eq!(walk(c.nodes()).len(), c.segments());
    }
}

#[test]
fn retracing_gives_the_same_points() {
    for n in 0..5 {
        let c = generate(n).unwrap();
        let first = walk(c.nodes());
        let second = walk(c.nodes());
        assert_eq!(first, second);
        assert_eq!(c.points(), first);
        assert_eq!(c.points(), c.points());
    }
}

#[test]
fn two_walks_do_not_disturb_each_other() {
    let c = generate(2).unwrap();
    let mut a = Points::from(c.nodes());
    let mut b = Points::from(c.nodes());
    let first = a.next();
    let second = a.next();
    assert_eq!(b.next(), first);
    assert_eq!(b.next(), second);
    assert_ne!(first, second);
}

#[test]
fn lattice_walk_agrees_with_the_walk_in_floating_point() {
    for n in 0..5 {
        let c = generate(n).unwrap();
        let exact = c.points();
        let floats = float_walk(c.nodes());
        assert_eq!(exact.len(), floats.len());
        for (p, f) in exact.iter().zip(floats.iter()) {
            let (x, y) = cartesian(*p);
            assert_eq!(x, f.0);
            assert!((y - f.1).abs() < 1e-9);
        }
    }
}
