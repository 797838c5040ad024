//! Planar computational geometry on integer grid coordinates: gift-wrapping and
//! Graham-scan convex hulls, an incremental triangulation and a Delaunay
//! edge-flipping pass, with every predicate evaluated exactly; plus the seed
//! graph of a 3-D hull and a frame-rate counter.

pub mod convex_hull_3d;
pub mod debug;
pub mod edge_flipping;
pub mod geometry;
pub mod graham_scan;
pub mod incremental_2d_triangulation;
pub mod jarvis_march;

pub use convex_hull_3d::{Color, ConvexHull, Graph, GraphEdge, GraphFace, GraphVertex, Vec3};
pub use geometry::Vec2;
pub use graham_scan::GrahamScan;
pub use incremental_2d_triangulation::Incremental2dTriangulation;
pub use jarvis_march::JarvisMarch;
