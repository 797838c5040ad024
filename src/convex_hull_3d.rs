//! The graph of a 3-D convex hull: its seed tetrahedron over a point set.

use vstd::prelude::*;

use crate::geometry::lemma_product_bound;

verus! {

/// A point in space on the integer grid.
#[derive(Clone, Copy, Debug, PartialEq, Eq, Structural)]
pub struct Vec3 {
    pub x: i32,
    pub y: i32,
    pub z: i32,
}

impl Vec3 {
    pub fn new(x: i32, y: i32, z: i32) -> (r: Self)
        ensures
            r.x == x,
            r.y == y,
            r.z == z,
    {
        Vec3 { x, y, z }
    }
}

/// The state of a hull element while the hull is built.
#[derive(Clone, Copy, Debug, PartialEq, Eq, Structural)]
pub enum Color {
    White,
    Red,
    Blue,
    Purple,
}

/// A hull vertex: the index of its point.
#[derive(Clone, Copy, Debug, PartialEq, Eq, Structural)]
pub struct GraphVertex {
    pub idx: u32,
    pub color: Color,
}

/// A hull edge: the indices of its two points.
#[derive(Clone, Copy, Debug)]
pub struct GraphEdge {
    pub idx: (u32, u32),
    pub color: Color,
}

/// A hull face: the indices of its three points.
#[derive(Clone, Copy, Debug)]
pub struct GraphFace {
    pub idx: (u32, u32, u32),
    pub color: Color,
}

/// The cross product `(q - p) × (r - p)` over the integers.
pub open spec fn face_normal(p: Vec3, q: Vec3, r: Vec3) -> (int, int, int) {
    let (ux, uy, uz) = (q.x - p.x, q.y - p.y, q.z - p.z);
    let (vx, vy, vz) = (r.x - p.x, r.y - p.y, r.z - p.z);
    (uy * vz - uz * vy, uz * vx - ux * vz, ux * vy - uy * vx)
}

/// One coordinate of a cross product of two differences of `i32` values.
fn cross_part(a: i32, b: i32, c: i32, d: i32, e: i32, f: i32, g: i32, h: i32) -> (r: i128)
    ensures
        r == (a - b) * (c - d) - (e - f) * (g - h),
{
    let u = a as i128 - b as i128;
    let v = c as i128 - d as i128;
    let w = e as i128 - f as i128;
    let z = g as i128 - h as i128;
    proof {
        lemma_product_bound(u as int, v as int, 0x1_0000_0000, 0x1_0000_0000);
        lemma_product_bound(w as int, z as int, 0x1_0000_0000, 0x1_0000_0000);
    }
    u * v - w * z
}

impl GraphFace {
    /// The face normal `(p2 - p1) × (p3 - p1)`, not normalized.
    pub fn normal(&self, vertices: &Vec<Vec3>) -> (r: (i128, i128, i128))
        requires
            (self.idx.0 as int) < vertices@.len(),
            (self.idx.1 as int) < vertices@.len(),
            (self.idx.2 as int) < vertices@.len(),
        ensures
            (r.0 as int, r.1 as int, r.2 as int) == face_normal(
                vertices@[self.idx.0 as int],
                vertices@[self.idx.1 as int],
                vertices@[self.idx.2 as int],
            ),
    {
        let p = vertices[self.idx.0 as usize];
        let q = vertices[self.idx.1 as usize];
        let r = vertices[self.idx.2 as usize];
        (
            cross_part(q.y, p.y, r.z, p.z, q.z, p.z, r.y, p.y),
            cross_part(q.z, p.z, r.x, p.x, q.x, p.x, r.z, p.z),
            cross_part(q.x, p.x, r.y, p.y, q.y, p.y, r.x, p.x),
        )
    }
}

/// Vertices, edges and faces of a hull.
pub struct Graph {
    pub vertices: Vec<GraphVertex>,
    pub edges: Vec<GraphEdge>,
    pub faces: Vec<GraphFace>,
}

impl Default for Graph {
    fn default() -> (r: Self)
        ensures
            r.vertices@.len() == 0,
            r.edges@.len() == 0,
            r.faces@.len() == 0,
    {
        Graph { vertices: Vec::new(), edges: Vec::new(), faces: Vec::new() }
    }
}

/// The seed tetrahedron over points 0 to 3: its vertices.
pub open spec fn tetra_vertices() -> Seq<GraphVertex> {
    Seq::new(4, |i: int| GraphVertex { idx: i as u32, color: Color::White })
}

/// The seed tetrahedron's six edges, each pair of its points once.
pub open spec fn tetra_edges() -> Seq<GraphEdge> {
    seq![
        GraphEdge { idx: (0, 1), color: Color::White },
        GraphEdge { idx: (0, 2), color: Color::White },
        GraphEdge { idx: (0, 3), color: Color::White },
        GraphEdge { idx: (1, 2), color: Color::White },
        GraphEdge { idx: (1, 3), color: Color::White },
        GraphEdge { idx: (2, 3), color: Color::White },
    ]
}

/// The seed tetrahedron's four faces, each triple of its points once.
pub open spec fn tetra_faces() -> Seq<GraphFace> {
    seq![
        GraphFace { idx: (0, 1, 2), color: Color::White },
        GraphFace { idx: (0, 1, 3), color: Color::White },
        GraphFace { idx: (0, 2, 3), color: Color::White },
        GraphFace { idx: (1, 2, 3), color: Color::White },
    ]
}

impl Graph {
    /// The flat index list of the faces, three per face, for drawing.
    pub fn face_indices(&self) -> (r: Vec<u32>)
        ensures
            r@.len() == 3 * self.faces@.len(),
            forall|k: int|
                0 <= k < self.faces@.len() ==> r@[3 * k] == (#[trigger] self.faces@[k]).idx.0
                    && r@[3 * k + 1] == self.faces@[k].idx.1 && r@[3 * k + 2]
                    == self.faces@[k].idx.2,
    {
        let mut r: Vec<u32> = Vec::new();
        let mut k: usize = 0;
        while k < self.faces.len()
            invariant
                k <= self.faces@.len(),
                r@.len() == 3 * k,
                forall|j: int|
                    0 <= j < k ==> r@[3 * j] == (#[trigger] self.faces@[j]).idx.0 && r@[3 * j + 1]
                        == self.faces@[j].idx.1 && r@[3 * j + 2] == self.faces@[j].idx.2,
            decreases self.faces@.len() - k,
        {
            let f = self.faces[k].idx;
            r.push(f.0);
            r.push(f.1);
            r.push(f.2);
            k += 1;
        }
        r
    }
}

/// The demonstration points: four around the origin and one off to the side.
pub open spec fn demo_points() -> Seq<Vec3> {
    seq![
        Vec3 { x: -500_000i32, y: 0i32, z: 0i32 },
        Vec3 { x: 0i32, y: 0i32, z: 500_000i32 },
        Vec3 { x: 500_000i32, y: 0i32, z: 0i32 },
        Vec3 { x: 0i32, y: 500_000i32, z: 0i32 },
        Vec3 { x: 900_000i32, y: 600_000i32, z: 200_000i32 },
    ]
}

/// A 3-D hull state: the input points and their hull graph.
pub struct ConvexHull {
    points: Vec<Vec3>,
    graph: Graph,
}

impl ConvexHull {
    pub closed spec fn points_view(&self) -> Seq<Vec3> {
        self.points@
    }

    pub closed spec fn graph_view(&self) -> &Graph {
        &self.graph
    }

    /// The demonstration set of five points, and its hull graph.
    pub fn new() -> (r: Self)
        ensures
            r.points_view() == demo_points(),
            r.graph_view().vertices@ == tetra_vertices(),
            r.graph_view().edges@ == tetra_edges(),
            r.graph_view().faces@ == tetra_faces(),
    {
        let mut points: Vec<Vec3> = Vec::new();
        points.push(Vec3::new(-500_000, 0, 0));
        points.push(Vec3::new(0, 0, 500_000));
        points.push(Vec3::new(500_000, 0, 0));
        points.push(Vec3::new(0, 500_000, 0));
        points.push(Vec3::new(900_000, 600_000, 200_000));
        let graph = Self::hull(&points);
        let r = ConvexHull { points, graph };
        assert(r.points@ =~= demo_points());
        r
    }

    /// The input points.
    pub fn points(&self) -> (r: &Vec<Vec3>)
        ensures
            r@ == self.points_view(),
    {
        &self.points
    }

    /// The hull graph.
    pub fn graph(&self) -> (r: &Graph)
        ensures
            r == self.graph_view(),
    {
        &self.graph
    }

    /// The hull graph of the points: empty below four points, else the seed
    /// tetrahedron over the first four.
    pub fn hull(points: &Vec<Vec3>) -> (r: Graph)
        ensures
            points@.len() < 4 ==> r.vertices@.len() == 0 && r.edges@.len() == 0 && r.faces@.len()
                == 0,
            points@.len() >= 4 ==> r.vertices@ == tetra_vertices() && r.edges@ == tetra_edges()
                && r.faces@ == tetra_faces(),
    {
        let mut graph = Graph::default();
        if points.len() < 4 {
            return graph;
        }
        let white = Color::White;
        graph.vertices.push(GraphVertex { idx: 0, color: white });
        graph.vertices.push(GraphVertex { idx: 1, color: white });
        graph.vertices.push(GraphVertex { idx: 2, color: white });
        graph.vertices.push(GraphVertex { idx: 3, color: white });
        graph.edges.push(GraphEdge { idx: (0, 1), color: white });
        graph.edges.push(GraphEdge { idx: (0, 2), color: white });
        graph.edges.push(GraphEdge { idx: (0, 3), color: white });
        graph.edges.push(GraphEdge { idx: (1, 2), color: white });
        graph.edges.push(GraphEdge { idx: (1, 3), color: white });
        graph.edges.push(GraphEdge { idx: (2, 3), color: white });
        graph.faces.push(GraphFace { idx: (0, 1, 2), color: white });
        graph.faces.push(GraphFace { idx: (0, 1, 3), color: white });
        graph.faces.push(GraphFace { idx: (0, 2, 3), color: white });
        graph.faces.push(GraphFace { idx: (1, 2, 3), color: white });
        assert(graph.vertices@ =~= tetra_vertices());
        assert(graph.edges@ =~= tetra_edges());
        assert(graph.faces@ =~= tetra_faces());
        graph
    }

    /// Removes all the points and the hull graph.
    pub fn clear(&mut self)
        ensures
            final(self).points_view() == Seq::<Vec3>::empty(),
            final(self).graph_view().vertices@.len() == 0,
            final(self).graph_view().edges@.len() == 0,
            final(self).graph_view().faces@.len() == 0,
    {
        self.points.clear();
        self.graph = Graph::default();
    }
}

} // verus!
