use compgeom::geometry::{Vec2, UNITS_PER_ONE};
use compgeom::{Incremental2dTriangulation, JarvisMarch};

fn p(x: f64, y: f64) -> Vec2 {
    let s = UNITS_PER_ONE as f64;
    Vec2::new((x * s).round() as i32, (y * s).round() as i32)
}

fn regression_points() -> Vec<Vec2> {
    vec![
        p(-0.63671875, -0.140625),
        p(-0.47265625, 0.44791666),
        p(-0.1484375, 0.7135417),
        p(-0.29296875, 0.106770836),
        p(0.017578125, 0.27864584),
        p(0.30664063, 0.42447916),
        p(0.5488281, -0.15364583),
        p(-0.29492188, -0.33072916),
        p(0.1796875, -0.33072916),
        p(-0.013671875, -0.088541664),
        p(0.1953125, -0.71875),
        p(-0.15820313, -0.8307292),
    ]
}

fn random_points(n: usize) -> Vec<Vec2> {
    (0..n).map(|_| Vec2::random_range(-800_000, 800_000, -800_000, 800_000)).collect()
}

fn assert_valid(indices: &[usize], n: usize) {
    assert_eq!(indices.len() % 3, 0);
    for t in indices.chunks(3) {
        assert!(t.iter().all(|&i| i < n));
        assert!(t[0] != t[1] && t[0] != t[2] && t[1] != t[2]);
    }
}

/// Twice the summed area of the triangles.
fn triangles_area2(points: &[Vec2], indices: &[usize]) -> i128 {
    indices
        .chunks(3)
        .map(|t| Vec2::shoelace(points[t[0]], points[t[1]], points[t[2]]).abs())
        .sum()
}

/// Twice the area of the polygon through the hull points.
fn hull_area2(points: &[Vec2]) -> i128 {
    let hull = JarvisMarch::march(points);
    let origin = Vec2::new(0, 0);
    let mut sum: i128 = 0;
    for k in 0..hull.len() {
        let a = points[hull[k]];
        let b = points[hull[(k + 1) % hull.len()]];
        sum += Vec2::shoelace(origin, a, b);
    }
    sum.abs()
}

#[test]
fn fewer_than_three_points_give_no_triangles() {
    let mut none: Vec<Vec2> = vec![];
    assert!(Incremental2dTriangulation::triangulate(&mut none).is_empty());

    let mut one = vec![Vec2::new(5, 5)];
    assert!(Incremental2dTriangulation::triangulate(&mut one).is_empty());

    let mut two = vec![Vec2::new(5, 5), Vec2::new(-3, 2)];
    assert!(Incremental2dTriangulation::triangulate(&mut two).is_empty());
    // Below three points the order is left as it was.
    assert_eq!(two, vec![Vec2::new(5, 5), Vec2::new(-3, 2)]);
}

#[test]
fn collinear_points_give_no_triangles() {
    let mut slanted = vec![Vec2::new(3, 6), Vec2::new(0, 0), Vec2::new(2, 4), Vec2::new(1, 2)];
    assert!(Incremental2dTriangulation::triangulate(&mut slanted).is_empty());

    let mut vertical = vec![Vec2::new(7, 9), Vec2::new(7, -1), Vec2::new(7, 4), Vec2::new(7, 4)];
    assert!(Incremental2dTriangulation::triangulate(&mut vertical).is_empty());

    // The steps change from near-vertical to steep but stay on one line.
    let mut broken = vec![Vec2::new(0, 0), Vec2::new(5, 1000), Vec2::new(1000, 200_000)];
    assert!(Incremental2dTriangulation::triangulate(&mut broken).is_empty());

    let mut repeated = vec![Vec2::new(1, 1); 5];
    assert!(Incremental2dTriangulation::triangulate(&mut repeated).is_empty());
}

#[test]
fn three_points_give_one_clockwise_triangle() {
    let mut points = vec![Vec2::new(10, 0), Vec2::new(0, 0), Vec2::new(0, 10)];
    let indices = Incremental2dTriangulation::triangulate(&mut points);
    assert_eq!(points, vec![Vec2::new(0, 0), Vec2::new(0, 10), Vec2::new(10, 0)]);
    assert_eq!(indices, vec![0, 1, 2]);
    assert!(Vec2::cw(points[0], points[1], points[2]));
}

#[test]
fn triangulate_sorts_by_x_then_y() {
    let mut points = vec![Vec2::new(2, 1), Vec2::new(0, 5), Vec2::new(2, -3), Vec2::new(-1, 0)];
    Incremental2dTriangulation::triangulate(&mut points);
    assert_eq!(
        points,
        vec![Vec2::new(-1, 0), Vec2::new(0, 5), Vec2::new(2, -3), Vec2::new(2, 1)]
    );
}

#[test]
fn indices_are_in_range_and_distinct() {
    for n in 0..30 {
        let mut points = random_points(n);
        let indices = Incremental2dTriangulation::triangulate(&mut points);
        assert_valid(&indices, points.len());
        for t in indices.chunks(3) {
            assert!(Vec2::cw(points[t[0]], points[t[1]], points[t[2]]));
        }
    }
}

#[test]
fn triangles_tile_the_hull_of_the_regression_set() {
    let mut points = regression_points();
    let indices = Incremental2dTriangulation::triangulate(&mut points);
    assert_eq!(triangles_area2(&points, &indices), hull_area2(&points));
}

#[test]
fn triangles_tile_the_hull_of_random_sets() {
    for n in 3..40 {
        let mut points = random_points(n);
        let indices = Incremental2dTriangulation::triangulate(&mut points);
        assert_eq!(triangles_area2(&points, &indices), hull_area2(&points));
    }
}

#[test]
fn triangulation_state_follows_its_points() {
    let mut t = Incremental2dTriangulation::new();
    t.add_point(Vec2::new(10, 0));
    t.add_point(Vec2::new(0, 0));
    assert!(t.triangles().is_empty());
    t.add_point(Vec2::new(0, 10));
    assert_eq!(t.points(), &vec![Vec2::new(0, 0), Vec2::new(0, 10), Vec2::new(10, 0)]);
    assert_eq!(t.triangles(), &vec![0, 1, 2]);

    t.random_points(5);
    assert_eq!(t.points().len(), 8);
    assert_valid(t.triangles(), 8);

    t.clear();
    assert!(t.points().is_empty());
    assert!(t.triangles().is_empty());
}

#[test]
fn random_points_keep_the_old_points() {
    let mut t = Incremental2dTriangulation::new();
    let old = vec![Vec2::new(3, 3), Vec2::new(-7, 1), Vec2::new(0, -4)];
    for v in old.iter() {
        t.add_point(*v);
    }
    t.random_points(4);
    assert_eq!(t.points().len(), 7);
    for v in old.iter() {
        assert!(t.points().contains(v));
    }
    assert!(t.points().iter().all(|p| p.is_bounded()));
}
