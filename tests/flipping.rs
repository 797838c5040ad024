use compgeom::geometry::{Vec2, UNITS_PER_ONE};
use compgeom::Incremental2dTriangulation;

fn p(x: f64, y: f64) -> Vec2 {
    let s = UNITS_PER_ONE as f64;
    Vec2::new((x * s).round() as i32, (y * s).round() as i32)
}

fn regression_points() -> Vec<Vec2> {
    vec![
        p(-0.63671875, -0.140625),
        p(-0.47265625, 0.44791666),
        p(-0.1484375, 0.7135417),
        p(-0.29296875, 0.106770836),
        p(0.017578125, 0.27864584),
        p(0.30664063, 0.42447916),
        p(0.5488281, -0.15364583),
        p(-0.29492188, -0.33072916),
        p(0.1796875, -0.33072916),
        p(-0.013671875, -0.088541664),
        p(0.1953125, -0.71875),
        p(-0.15820313, -0.8307292),
    ]
}

fn triangles_area2(points: &[Vec2], indices: &[usize]) -> i128 {
    indices
        .chunks(3)
        .map(|t| Vec2::shoelace(points[t[0]], points[t[1]], points[t[2]]).abs())
        .sum()
}

#[test]
fn determinant_sign_marks_points_inside_the_circumcircle() {
    let pos = vec![Vec2::new(0, 0), Vec2::new(10, 0), Vec2::new(0, 10), Vec2::new(1, 1)];
    // (0, 1, 2) turns counter-clockwise and point 3 lies inside its circumcircle.
    assert_eq!(Incremental2dTriangulation::determinant(&(0, 1, 2), &(1, 2, 3), &pos), 1800);
    let far = vec![Vec2::new(0, 0), Vec2::new(10, 0), Vec2::new(0, 10), Vec2::new(20, 20)];
    assert_eq!(Incremental2dTriangulation::determinant(&(0, 1, 2), &(1, 2, 3), &far), -40000);
    // On the circle the determinant is zero.
    let on = vec![Vec2::new(0, 0), Vec2::new(10, 0), Vec2::new(0, 10), Vec2::new(10, 10)];
    assert_eq!(Incremental2dTriangulation::determinant(&(0, 1, 2), &(1, 2, 3), &on), 0);
}

#[test]
fn triangle_helpers() {
    assert!(Incremental2dTriangulation::indice_in_triangle(4, &(1, 4, 7)));
    assert!(!Incremental2dTriangulation::indice_in_triangle(5, &(1, 4, 7)));
    assert!(Incremental2dTriangulation::has_sim_edge(&(0, 1, 2), &(2, 1, 3)));
    assert!(!Incremental2dTriangulation::has_sim_edge(&(0, 1, 2), &(2, 4, 3)));
    assert_eq!(Incremental2dTriangulation::get_opposite(&(0, 1, 2), &(2, 1, 3)), (1, 2, 0, 3));
    assert_eq!(Incremental2dTriangulation::get_opposite(&(1, 0, 2), &(2, 1, 3)), (1, 2, 0, 3));
    assert_eq!(Incremental2dTriangulation::get_opposite(&(1, 0, 3), &(0, 1, 2)), (1, 0, 3, 2));
    assert_eq!(
        Incremental2dTriangulation::prod_vec(Vec2::new(0, 0), Vec2::new(4, 0), Vec2::new(0, 3)),
        12
    );
    let mut indices = vec![0, 1, 2, 2, 1, 3];
    assert_eq!(Incremental2dTriangulation::get_triangles(&mut indices), vec![(0, 1, 2), (2, 1, 3)]);
    assert_eq!(indices, vec![0, 1, 2, 2, 1, 3]);
}

#[test]
fn flipping_keeps_a_delaunay_list() {
    // The short diagonal of this kite is already the Delaunay one.
    let mut points = vec![Vec2::new(0, 0), Vec2::new(10, -1), Vec2::new(10, 1), Vec2::new(20, 0)];
    let mut indices = Incremental2dTriangulation::triangulate(&mut points);
    assert_eq!(indices, vec![1, 0, 2, 1, 2, 3]);
    Incremental2dTriangulation::edge_flipping(&mut indices, &points);
    assert_eq!(indices, vec![1, 0, 2, 1, 2, 3]);
}

#[test]
fn flipping_replaces_an_illegal_diagonal() {
    let mut points = vec![Vec2::new(2, 0), Vec2::new(1, 10), Vec2::new(0, 0), Vec2::new(1, -10)];
    let mut indices = Incremental2dTriangulation::triangulate(&mut points);
    assert_eq!(points, vec![Vec2::new(0, 0), Vec2::new(1, -10), Vec2::new(1, 10), Vec2::new(2, 0)]);
    assert_eq!(indices, vec![1, 0, 2, 1, 2, 3]);
    Incremental2dTriangulation::edge_flipping(&mut indices, &points);
    // The long diagonal 1-2 becomes the short one 0-3, both triangles still clockwise.
    assert_eq!(indices, vec![3, 1, 0, 3, 0, 2]);
    let mut again = indices.clone();
    Incremental2dTriangulation::edge_flipping(&mut again, &points);
    assert_eq!(again, indices);
}

#[test]
fn flipping_the_regression_set() {
    let mut points = regression_points();
    let mut indices = Incremental2dTriangulation::triangulate(&mut points);
    let area = triangles_area2(&points, &indices);
    Incremental2dTriangulation::edge_flipping(&mut indices, &points);
    let expected = vec![
        3, 2, 0, 3, 0, 1, 0, 2, 4, 3, 1, 5, 6, 4, 2, 6, 2, 3, 6, 3, 5, 6, 5, 7, 4, 6, 8, 4, 8, 9,
        7, 5, 10, 10, 8, 6, 10, 6, 7, 11, 9, 8, 11, 8, 10,
    ];
    assert_eq!(indices, expected);
    assert_eq!(triangles_area2(&points, &indices), area);
}

#[test]
fn flipping_leaves_unrelated_triangles() {
    let points = vec![
        Vec2::new(0, 0),
        Vec2::new(1, 0),
        Vec2::new(0, 1),
        Vec2::new(10, 10),
        Vec2::new(11, 10),
        Vec2::new(10, 11),
    ];
    let mut indices = vec![0, 1, 2, 3, 4, 5];
    Incremental2dTriangulation::edge_flipping(&mut indices, &points);
    assert_eq!(indices, vec![0, 1, 2, 3, 4, 5]);
}

#[test]
fn flip_edges_on_the_state() {
    let mut t = Incremental2dTriangulation::new();
    for v in [Vec2::new(2, 0), Vec2::new(1, 10), Vec2::new(0, 0), Vec2::new(1, -10)] {
        t.add_point(v);
    }
    assert_eq!(t.triangles(), &vec![1, 0, 2, 1, 2, 3]);
    t.flip_edges();
    assert_eq!(t.triangles(), &vec![3, 1, 0, 3, 0, 2]);
}

#[test]
fn requeue_flipping_replaces_an_illegal_diagonal() {
    let mut points = vec![Vec2::new(2, 0), Vec2::new(1, 10), Vec2::new(0, 0), Vec2::new(1, -10)];
    let mut indices = Incremental2dTriangulation::triangulate(&mut points);
    Incremental2dTriangulation::edge_flipping_requeue(&mut indices, &points);
    assert_eq!(indices, vec![3, 0, 2, 3, 1, 0]);
}

#[test]
fn requeue_flipping_the_regression_set() {
    let mut points = regression_points();
    let mut indices = Incremental2dTriangulation::triangulate(&mut points);
    let area = triangles_area2(&points, &indices);
    Incremental2dTriangulation::edge_flipping_requeue(&mut indices, &points);
    let expected = vec![
        3, 0, 1, 3, 2, 0, 6, 2, 3, 0, 2, 4, 3, 1, 5, 6, 3, 5, 6, 4, 2, 6, 5, 7, 11, 6, 7, 4, 6, 8,
        4, 8, 9, 7, 5, 10, 11, 7, 10, 11, 8, 6, 11, 9, 8,
    ];
    assert_eq!(indices, expected);
    assert_eq!(triangles_area2(&points, &indices), area);
}

#[test]
fn requeue_flipping_keeps_a_delaunay_list() {
    let mut points = vec![Vec2::new(0, 0), Vec2::new(10, -1), Vec2::new(10, 1), Vec2::new(20, 0)];
    let mut indices = Incremental2dTriangulation::triangulate(&mut points);
    Incremental2dTriangulation::edge_flipping_requeue(&mut indices, &points);
    assert_eq!(indices, vec![1, 0, 2, 1, 2, 3]);
}

#[test]
fn flip_edges_mode_toggle() {
    let mut t = Incremental2dTriangulation::new();
    assert!(!t.requeue_both());
    for v in [Vec2::new(2, 0), Vec2::new(1, 10), Vec2::new(0, 0), Vec2::new(1, -10)] {
        t.add_point(v);
    }
    t.set_requeue_both(true);
    assert!(t.requeue_both());
    t.flip_edges();
    assert_eq!(t.triangles(), &vec![3, 0, 2, 3, 1, 0]);
}

#[test]
fn in_circle_violation_needs_a_shared_edge_and_the_right_sign() {
    let pos = vec![Vec2::new(0, 0), Vec2::new(10, 0), Vec2::new(0, 10), Vec2::new(1, 1)];
    // Counter-clockwise and inside: violated.
    assert!(Incremental2dTriangulation::in_circle_violated(&(0, 1, 2), &(1, 2, 3), &pos));
    // The same triangle read clockwise flips the sign of both factors.
    assert!(Incremental2dTriangulation::in_circle_violated(&(0, 2, 1), &(1, 2, 3), &pos));
    // Outside the circumcircle: not violated.
    let far = vec![Vec2::new(0, 0), Vec2::new(10, 0), Vec2::new(0, 10), Vec2::new(20, 20)];
    assert!(!Incremental2dTriangulation::in_circle_violated(&(0, 1, 2), &(1, 2, 3), &far));
    // On the circle: not violated.
    let on = vec![Vec2::new(0, 0), Vec2::new(10, 0), Vec2::new(0, 10), Vec2::new(10, 10)];
    assert!(!Incremental2dTriangulation::in_circle_violated(&(0, 1, 2), &(1, 2, 3), &on));
    // Sharing a single corner: not adjacent.
    assert!(!Incremental2dTriangulation::in_circle_violated(&(0, 1, 2), &(2, 3, 3), &pos));
}
