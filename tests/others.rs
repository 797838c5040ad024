use compgeom::convex_hull_3d::{Color, ConvexHull, Graph, GraphFace, Vec3};
use compgeom::debug::FRAMERATE_UPDATE_STEP;
use compgeom::geometry::Vec2;
use compgeom::{GrahamScan, JarvisMarch};

#[test]
fn jarvis_state_tracks_hull() {
    let mut j = JarvisMarch::new();
    assert!(j.hull().is_empty());
    j.add_point(Vec2::new(0, 0));
    assert!(j.hull().is_empty());
    j.add_point(Vec2::new(10, 0));
    j.add_point(Vec2::new(5, 3));
    j.add_point(Vec2::new(5, 10));
    assert_eq!(j.points().len(), 4);
    assert_eq!(j.hull(), &vec![Vec2::new(0, 0), Vec2::new(5, 10), Vec2::new(10, 0)]);
    j.random_points(3);
    assert_eq!(j.points().len(), 7);
    j.clear();
    assert!(j.points().is_empty() && j.hull().is_empty());
}

#[test]
fn jarvis_march_small_inputs() {
    assert!(JarvisMarch::march(&[]).is_empty());
    assert!(JarvisMarch::march(&[Vec2::new(1, 1)]).is_empty());
    // The leftmost point, lowest among equal x, comes first.
    let pts = [Vec2::new(3, 3), Vec2::new(0, 5), Vec2::new(0, 1), Vec2::new(4, 0)];
    assert_eq!(JarvisMarch::march(&pts)[0], 2);
    // Repeated points: the wrap stays within one index per point.
    let same = [Vec2::new(2, 2); 4];
    assert!(JarvisMarch::march(&same).len() <= 4);
}

#[test]
fn graham_state_tracks_hull() {
    let mut g = GrahamScan::new();
    g.add_point(Vec2::new(0, 0));
    assert!(g.hull().is_empty());
    g.add_point(Vec2::new(10, 0));
    g.add_point(Vec2::new(5, 3));
    g.add_point(Vec2::new(5, 10));
    assert_eq!(g.hull(), &vec![Vec2::new(0, 0), Vec2::new(10, 0), Vec2::new(5, 10)]);
    assert_eq!(GrahamScan::prod_vec(Vec2::new(0, 0), Vec2::new(4, 0), Vec2::new(0, 3)), 12);
    g.random_points(2);
    assert_eq!(g.points().len(), 6);
    g.clear();
    assert!(g.points().is_empty() && g.hull().is_empty());
}

#[test]
fn hull_graph_is_empty_below_four_points() {
    let pts = vec![Vec3::new(0, 0, 0), Vec3::new(1, 0, 0), Vec3::new(0, 1, 0)];
    let g = ConvexHull::hull(&pts);
    assert!(g.vertices.is_empty() && g.edges.is_empty() && g.faces.is_empty());
    let d = Graph::default();
    assert!(d.vertices.is_empty() && d.edges.is_empty() && d.faces.is_empty());
}

#[test]
fn hull_graph_seeds_a_tetrahedron() {
    let hull = ConvexHull::new();
    assert_eq!(hull.points().len(), 5);
    let g = hull.graph();
    assert_eq!(g.vertices.len(), 4);
    assert_eq!(g.edges.len(), 6);
    assert_eq!(g.faces.len(), 4);
    assert!(g.vertices.iter().enumerate().all(|(i, v)| v.idx == i as u32 && v.color == Color::White));
    assert_eq!(g.edges[5].idx, (2, 3));
    assert_eq!(g.face_indices(), vec![0, 1, 2, 0, 1, 3, 0, 2, 3, 1, 2, 3]);
}

#[test]
fn face_normal_is_the_cross_product() {
    let pts = vec![Vec3::new(0, 0, 0), Vec3::new(2, 0, 0), Vec3::new(0, 3, 0)];
    let face = GraphFace { idx: (0, 1, 2), color: Color::Red };
    assert_eq!(face.normal(&pts), (0, 0, 6));
    let flipped = GraphFace { idx: (0, 2, 1), color: Color::Blue };
    assert_eq!(flipped.normal(&pts), (0, 0, -6));
}

#[test]
fn hull_state_clears() {
    let mut hull = ConvexHull::new();
    hull.clear();
    assert!(hull.points().is_empty());
}

#[test]
fn framerate_is_measured_every_step() {
    let mut d = compgeom::debug::Debug::default();
    assert_eq!(d.framerate(), 0);
    d.update_framerate(50_000_000);
    assert_eq!(d.delta_time(), 50_000_000);
    assert_eq!(d.framerate(), 0);
    d.update_framerate(FRAMERATE_UPDATE_STEP);
    // Two frames in a tenth of a second.
    assert_eq!(d.framerate(), 20);
    assert_eq!(d.delta_time(), 50_000_000);
    // One frame in 0.3 s: 3.33 fps rounds to 3.
    d.update_framerate(FRAMERATE_UPDATE_STEP + 300_000_000);
    assert_eq!(d.framerate(), 3);
    // Three frames in 0.4 s: 7.5 fps rounds up to 8.
    d.update_framerate(FRAMERATE_UPDATE_STEP + 350_000_000);
    d.update_framerate(FRAMERATE_UPDATE_STEP + 380_000_000);
    assert_eq!(d.framerate(), 3);
    d.update_framerate(FRAMERATE_UPDATE_STEP + 700_000_000);
    assert_eq!(d.framerate(), 8);
}

#[test]
fn hulls_of_random_sets_are_convex() {
    for n in 3..30 {
        let pts: Vec<Vec2> = (0..n).map(|_| Vec2::random_range(-1000, 1000, -1000, 1000)).collect();
        let g = GrahamScan::scan(&pts);
        for w in g.windows(3) {
            assert!(Vec2::shoelace(w[0], w[1], w[2]) >= 0);
        }
        let j = JarvisMarch::march(&pts);
        if j.len() >= 2 {
            for p in pts.iter() {
                assert!(Vec2::shoelace(pts[j[0]], pts[j[1]], *p) <= 0);
            }
        }
    }
}
