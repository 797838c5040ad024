//! Delaunay legalization of an index list by edge flipping.

use vstd::prelude::*;

use crate::geometry::{lemma_product_bound, shoelace_of, Vec2};
use crate::incremental_2d_triangulation::{valid_index_list, Incremental2dTriangulation};

verus! {

/// A triangle as three indices into a point set.
pub type Tri = (usize, usize, usize);

/// Whether index `i` is a corner of `t`.
pub open spec fn tri_has(t: Tri, i: usize) -> bool {
    i == t.0 || i == t.1 || i == t.2
}

/// The three corners of `t` are pairwise distinct.
pub open spec fn distinct_tri(t: Tri) -> bool {
    t.0 != t.1 && t.0 != t.2 && t.1 != t.2
}

/// How many corners of `t1` are also corners of `t2`.
pub open spec fn shared_count(t1: Tri, t2: Tri) -> int {
    (if tri_has(t2, t1.0) { 1int } else { 0 }) + (if tri_has(t2, t1.1) { 1int } else { 0 }) + (
    if tri_has(t2, t1.2) { 1int } else { 0 })
}

/// Two proper triangles that share exactly one edge.
pub open spec fn adjacent(t1: Tri, t2: Tri) -> bool {
    distinct_tri(t1) && distinct_tri(t2) && shared_count(t1, t2) == 2
}

/// The first corner of `t1` that is not a corner of `t2`.
pub open spec fn own_corner(t1: Tri, t2: Tri) -> usize {
    if !tri_has(t2, t1.0) {
        t1.0
    } else if !tri_has(t2, t1.1) {
        t1.1
    } else {
        t1.2
    }
}

/// The two corners of `t1` that `t2` shares, in the order they have in `t1`.
pub open spec fn shared_pair(t1: Tri, t2: Tri) -> (usize, usize) {
    let o = own_corner(t1, t2);
    if o == t1.0 {
        (t1.1, t1.2)
    } else if o == t1.1 {
        (t1.0, t1.2)
    } else {
        (t1.0, t1.1)
    }
}

/// `t` rotated (keeping its winding) so that corner `o` comes first.
pub open spec fn rotate_to(t: Tri, o: usize) -> Tri {
    if o == t.0 {
        t
    } else if o == t.1 {
        (t.1, t.2, t.0)
    } else {
        (t.2, t.0, t.1)
    }
}

/// Twice the signed area of triangle `t`.
pub open spec fn orientation_of(ps: Seq<Vec2>, t: Tri) -> int {
    shoelace_of(ps[t.0 as int], ps[t.1 as int], ps[t.2 as int])
}

/// The lifting `x² + y²` of a point onto the paraboloid.
pub open spec fn lifted(p: Vec2) -> int {
    p.x * p.x + p.y * p.y
}

/// The determinant of the 3×3 matrix with rows `[x, y, x² + y²]` for `p, q, r`.
pub open spec fn lifted_det3(p: Vec2, q: Vec2, r: Vec2) -> int {
    lifted(p) * (q.x * r.y - q.y * r.x) + lifted(q) * (r.x * p.y - r.y * p.x) + lifted(r) * (p.x
        * q.y - p.y * q.x)
}

/// The determinant of the 4×4 matrix with rows `[x, y, x² + y², 1]` for
/// `a, b, c, d`, expanded along the column of ones. When `(a, b, c)` turns
/// counter-clockwise it is positive exactly when `d` lies inside their circumcircle.
pub open spec fn in_circle_det(a: Vec2, b: Vec2, c: Vec2, d: Vec2) -> int {
    lifted_det3(a, b, c) - lifted_det3(a, b, d) + lifted_det3(a, c, d) - lifted_det3(b, c, d)
}

/// The in-circle determinant of `t1` with the corner of `t2` that `t1` lacks.
pub open spec fn pair_det(ps: Seq<Vec2>, t1: Tri, t2: Tri) -> int {
    in_circle_det(ps[t1.0 as int], ps[t1.1 as int], ps[t1.2 as int], ps[own_corner(t2, t1) as int])
}

/// `t1` and `t2` share an edge and the corner of `t2` opposite to it lies
/// strictly inside the circumcircle of `t1`: the shared edge must be flipped.
pub open spec fn violates(ps: Seq<Vec2>, t1: Tri, t2: Tri) -> bool {
    adjacent(t1, t2) && ((orientation_of(ps, t1) > 0 && pair_det(ps, t1, t2) > 0) || (
    orientation_of(ps, t1) < 0 && pair_det(ps, t1, t2) < 0))
}

/// The two triangles that replace adjacent `t1` and `t2` when their shared
/// edge is flipped: with `t1` read as `(o1, p, q)` and `o2` the corner of `t2`
/// opposite the edge, they are `(o1, p, o2)` and `(o1, o2, q)`, both with the
/// winding of `t1`.
pub open spec fn flip_pair(t1: Tri, t2: Tri) -> (Tri, Tri) {
    let o1 = own_corner(t1, t2);
    let o2 = own_corner(t2, t1);
    let r = rotate_to(t1, o1);
    ((o1, r.1, o2), (o1, o2, r.2))
}

/// Index of the first triangle of `rest`, from position `k` on, that `t`
/// violates the Delaunay condition with; `rest.len()` if there is none.
pub open spec fn first_violation(ps: Seq<Vec2>, t: Tri, rest: Seq<Tri>, k: int) -> int
    decreases rest.len() - k,
{
    if k >= rest.len() {
        rest.len() as int
    } else if violates(ps, t, rest[k]) {
        k
    } else {
        first_violation(ps, t, rest, k + 1)
    }
}

/// The flipping pass on worklist `work` with finished triangles `done`: the
/// last triangle of the worklist is taken off; if it violates the Delaunay
/// condition with a remaining triangle (the first such), both are flipped, the
/// first new triangle goes back on the worklist and the second is finished;
/// otherwise the taken triangle is finished. Finished triangles go to the front.
pub open spec fn flip_run(ps: Seq<Vec2>, work: Seq<Tri>, done: Seq<Tri>) -> Seq<Tri>
    decreases work.len(),
{
    if work.len() == 0 {
        done
    } else {
        let t = work.last();
        let rest = work.drop_last();
        let j = first_violation(ps, t, rest, 0);
        if 0 <= j < rest.len() {
            let (n1, n2) = flip_pair(t, rest[j]);
            flip_run(ps, rest.remove(j).push(n1), seq![n2] + done)
        } else {
            flip_run(ps, rest, seq![t] + done)
        }
    }
}

/// The consecutive triples of an index list.
pub open spec fn triangles_of(ix: Seq<usize>) -> Seq<Tri> {
    Seq::new(ix.len() / 3, |t: int| (ix[3 * t], ix[3 * t + 1], ix[3 * t + 2]))
}

/// The index list of a sequence of triangles.
pub open spec fn flatten(ts: Seq<Tri>) -> Seq<usize> {
    Seq::new(
        3 * ts.len(),
        |i: int|
            if i % 3 == 0 {
                ts[i / 3].0
            } else if i % 3 == 1 {
                ts[i / 3].1
            } else {
                ts[i / 3].2
            },
    )
}

/// The index list that edge flipping makes of `ix` over the points `ps`.
pub open spec fn flipped_of(ps: Seq<Vec2>, ix: Seq<usize>) -> Seq<usize> {
    flatten(flip_run(ps, triangles_of(ix), seq![]))
}

/// The flipping pass in which both new triangles of a flip stay on the
/// worklist (the second in the place of the triangle it replaces, the first on
/// top), with at most `fuel` flips; once they are spent, the remaining
/// triangles are finished as they are.
pub open spec fn flip_run_requeue(ps: Seq<Vec2>, work: Seq<Tri>, done: Seq<Tri>, fuel: nat) -> Seq<Tri>
    decreases fuel, work.len(),
{
    if work.len() == 0 {
        done
    } else {
        let t = work.last();
        let rest = work.drop_last();
        let j = first_violation(ps, t, rest, 0);
        if fuel > 0 && 0 <= j < rest.len() {
            let (n1, n2) = flip_pair(t, rest[j]);
            flip_run_requeue(ps, rest.update(j, n2).push(n1), done, (fuel - 1) as nat)
        } else {
            flip_run_requeue(ps, rest, seq![t] + done, fuel)
        }
    }
}

/// The flips allowed to a list of `t` triangles when both new triangles are
/// re-examined: one per pair of the at most `t + 2` points of a triangulation.
pub open spec fn flip_budget(t: nat) -> nat {
    ((t + 2) * (t + 1) / 2) as nat
}

/// The index list that edge flipping with re-examination of both new
/// triangles makes of `ix` over the points `ps`.
pub open spec fn flipped_requeue_of(ps: Seq<Vec2>, ix: Seq<usize>) -> Seq<usize> {
    flatten(flip_run_requeue(ps, triangles_of(ix), seq![], flip_budget(ix.len() / 3)))
}

/// Every corner of every triangle is below `n`.
pub open spec fn tris_in_range(ts: Seq<Tri>, n: int) -> bool {
    forall|k: int| 0 <= k < ts.len() ==> (#[trigger] ts[k]).0 < n && ts[k].1 < n && ts[k].2 < n
}

/// No two distinct triangles of the list violate the Delaunay condition.
pub open spec fn is_delaunay(ps: Seq<Vec2>, ts: Seq<Tri>) -> bool {
    forall|i: int, j: int|
        0 <= i < ts.len() && 0 <= j < ts.len() && i != j ==> !violates(ps, #[trigger] ts[i], #[trigger] ts[j])
}


proof fn lemma_flatten_triangles(ix: Seq<usize>)
    requires
        ix.len() % 3 == 0,
    ensures
        flatten(triangles_of(ix)) == ix,
{
    let f = flatten(triangles_of(ix));
    assert forall|i: int| 0 <= i < ix.len() implies #[trigger] f[i] == ix[i] by {
        let t = i / 3;
        assert(0 <= t < ix.len() / 3);
        assert(3 * t + 2 < ix.len());
    }
    assert(f =~= ix);
}

proof fn lemma_triangles_in_range(ix: Seq<usize>, n: int)
    requires
        forall|i: int| 0 <= i < ix.len() ==> #[trigger] ix[i] < n,
    ensures
        tris_in_range(triangles_of(ix), n),
{
    assert forall|k: int| 0 <= k < triangles_of(ix).len() implies (#[trigger] triangles_of(ix)[k]).0 < n
        && triangles_of(ix)[k].1 < n && triangles_of(ix)[k].2 < n by {
        assert(3 * k + 2 < ix.len());
        assert(ix[3 * k] < n);
        assert(ix[3 * k + 1] < n);
        assert(ix[3 * k + 2] < n);
    }
}

proof fn lemma_triangles_distinct(ix: Seq<usize>, n: int)
    requires
        valid_index_list(ix, n),
    ensures
        forall|k: int| 0 <= k < triangles_of(ix).len() ==> distinct_tri(#[trigger] triangles_of(ix)[k]),
{
    assert forall|k: int| 0 <= k < triangles_of(ix).len() implies distinct_tri(
        #[trigger] triangles_of(ix)[k],
    ) by {
        assert(3 * k + 2 < ix.len());
        assert(ix[3 * k] != ix[3 * k + 1] && ix[3 * k] != ix[3 * k + 2] && ix[3 * k + 1] != ix[3 * k
            + 2]);
    }
}

proof fn lemma_flatten_valid(ts: Seq<Tri>, n: int)
    requires
        tris_in_range(ts, n),
        forall|k: int| 0 <= k < ts.len() ==> distinct_tri(#[trigger] ts[k]),
    ensures
        valid_index_list(flatten(ts), n),
{
    let f = flatten(ts);
    assert forall|i: int| 0 <= i < f.len() implies #[trigger] f[i] < n by {
        let k = i / 3;
        assert(0 <= k < ts.len());
        assert(ts[k].0 < n && ts[k].1 < n && ts[k].2 < n);
    }
    assert forall|t: int| 0 <= t && 3 * t + 2 < f.len() implies #[trigger] f[3 * t] != f[3 * t + 1]
        && f[3 * t] != f[3 * t + 2] && f[3 * t + 1] != f[3 * t + 2] by {
        assert((3 * t) / 3 == t);
        assert((3 * t + 1) / 3 == t);
        assert((3 * t + 2) / 3 == t);
        assert(distinct_tri(ts[t]));
    }
}

/// The two triangles of a flip are proper and use the corners of the pair.
proof fn lemma_flip_pair_corners(t1: Tri, t2: Tri, n: int)
    requires
        adjacent(t1, t2),
        t1.0 < n && t1.1 < n && t1.2 < n,
        t2.0 < n && t2.1 < n && t2.2 < n,
    ensures
        distinct_tri(flip_pair(t1, t2).0),
        distinct_tri(flip_pair(t1, t2).1),
        flip_pair(t1, t2).0.0 < n && flip_pair(t1, t2).0.1 < n && flip_pair(t1, t2).0.2 < n,
        flip_pair(t1, t2).1.0 < n && flip_pair(t1, t2).1.1 < n && flip_pair(t1, t2).1.2 < n,
{
}

impl Incremental2dTriangulation {
    /// Splits an index list into its consecutive triples; the list is unchanged.
    pub fn get_triangles(indices: &mut Vec<usize>) -> (r: Vec<Tri>)
        requires
            old(indices)@.len() % 3 == 0,
        ensures
            final(indices)@ == old(indices)@,
            r@ == triangles_of(old(indices)@),
    {
        let mut triangles: Vec<Tri> = Vec::new();
        let len = indices.len();
        let count = len / 3;
        let mut k: usize = 0;
        while k < count
            invariant
                indices@ == old(indices)@,
                len == indices@.len(),
                count == indices@.len() / 3,
                k <= count,
                triangles@ == triangles_of(indices@).take(k as int),
            decreases count - k,
        {
            assert(3 * k + 2 < indices@.len());
            let i = 3 * k;
            triangles.push((indices[i], indices[i + 1], indices[i + 2]));
            k += 1;
            assert(triangles@ =~= triangles_of(indices@).take(k as int));
        }
        assert(triangles@ =~= triangles_of(indices@));
        triangles
    }

    /// Whether index `i` is a corner of `triangle`.
    pub fn indice_in_triangle(i: usize, triangle: &Tri) -> (r: bool)
        ensures
            r == tri_has(*triangle, i),
    {
        i == triangle.0 || i == triangle.1 || i == triangle.2
    }

    /// Whether at least two corners of `triangle1` are corners of `triangle2`.
    pub fn has_sim_edge(triangle1: &Tri, triangle2: &Tri) -> (r: bool)
        ensures
            r == (shared_count(*triangle1, *triangle2) >= 2),
    {
        let mut shared: u8 = 0;
        if Self::indice_in_triangle(triangle1.0, triangle2) {
            shared += 1;
        }
        if Self::indice_in_triangle(triangle1.1, triangle2) {
            shared += 1;
        }
        if Self::indice_in_triangle(triangle1.2, triangle2) {
            shared += 1;
        }
        shared >= 2
    }

    /// For adjacent triangles, `(s1, s2, o1, o2)`: `s1`, `s2` the corners of
    /// the shared edge in the order they have in `triangle1`, `o1` the corner of
    /// `triangle1` off that edge and `o2` the corner of `triangle2` off it.
    pub fn get_opposite(triangle1: &Tri, triangle2: &Tri) -> (r: (usize, usize, usize, usize))
        requires
            adjacent(*triangle1, *triangle2),
        ensures
            (r.0, r.1) == shared_pair(*triangle1, *triangle2),
            r.2 == own_corner(*triangle1, *triangle2),
            r.3 == own_corner(*triangle2, *triangle1),
    {
        let t1 = *triangle1;
        let t2 = *triangle2;
        let o2 = if !Self::indice_in_triangle(t2.0, triangle1) {
            t2.0
        } else if !Self::indice_in_triangle(t2.1, triangle1) {
            t2.1
        } else {
            t2.2
        };
        if !Self::indice_in_triangle(t1.0, triangle2) {
            (t1.1, t1.2, t1.0, o2)
        } else if !Self::indice_in_triangle(t1.1, triangle2) {
            (t1.0, t1.2, t1.1, o2)
        } else {
            (t1.0, t1.1, t1.2, o2)
        }
    }

    /// The two triangles that replace adjacent `t1` and `t2` (see `flip_pair`).
    fn flip_of(t1: &Tri, t2: &Tri) -> (r: (Tri, Tri))
        requires
            adjacent(*t1, *t2),
        ensures
            r == flip_pair(*t1, *t2),
    {
        let (s1, s2, o1, o2) = Self::get_opposite(t1, t2);
        // Read t1 from its own corner on: (o1, p, q) keeps its winding.
        let (p, q) = if o1 == t1.1 {
            (s2, s1)
        } else {
            (s1, s2)
        };
        ((o1, p, o2), (o1, o2, q))
    }

    /// Index of the first triangle of `work` that `t` violates the Delaunay
    /// condition with; `work.len()` if there is none.
    fn first_violation_index(t: &Tri, work: &Vec<Tri>, points: &[Vec2]) -> (j: usize)
        requires
            t.0 < points@.len() && t.1 < points@.len() && t.2 < points@.len(),
            tris_in_range(work@, points@.len() as int),
            forall|i: int| 0 <= i < points@.len() ==> (#[trigger] points@[i]).bounded(),
        ensures
            j as int == first_violation(points@, *t, work@, 0),
    {
        let mut j: usize = 0;
        proof {
            lemma_first_violation_bounds(points@, *t, work@, 0);
        }
        while j < work.len() && !Self::in_circle_violated(t, &work[j], points)
            invariant
                t.0 < points@.len() && t.1 < points@.len() && t.2 < points@.len(),
                tris_in_range(work@, points@.len() as int),
                forall|i: int| 0 <= i < points@.len() ==> (#[trigger] points@[i]).bounded(),
                j <= work@.len(),
                first_violation(points@, *t, work@, 0) == first_violation(points@, *t, work@, j as int),
            decreases work@.len() - j,
        {
            j += 1;
        }
        proof {
            lemma_first_violation_bounds(points@, *t, work@, j as int);
        }
        j
    }

    /// The cross product `(b - a) × (c - a)`: twice the signed area of `(a, b, c)`.
    pub fn prod_vec(a: Vec2, b: Vec2, c: Vec2) -> (r: i128)
        ensures
            r == shoelace_of(a, b, c),
    {
        Vec2::shoelace(a, b, c)
    }

    /// The lifted 3×3 determinant of three bounded points.
    fn lifted_det3_of(p: Vec2, q: Vec2, r: Vec2) -> (d: i128)
        requires
            p.bounded(),
            q.bounded(),
            r.bounded(),
        ensures
            d == lifted_det3(p, q, r),
            -0xc_0000_0000_0000_0000_0000_0000_0000 <= d <= 0xc_0000_0000_0000_0000_0000_0000_0000,
    {
        let lp = p.sqr_length();
        let lq = q.sqr_length();
        let lr = r.sqr_length();
        let (px, py, qx, qy, rx, ry) = (
            p.x as i128,
            p.y as i128,
            q.x as i128,
            q.y as i128,
            r.x as i128,
            r.y as i128,
        );
        proof {
            let l: int = 0x1000_0000;
            let l2: int = 0x100_0000_0000_0000;
            let l4: int = 0x4_0000_0000_0000_0000_0000_0000_0000;
            assert(l * l == l2);
            assert((2 * l2) * (2 * l2) == l4);
            lemma_product_bound(px as int, px as int, l, l);
            lemma_product_bound(py as int, py as int, l, l);
            lemma_product_bound(qx as int, qx as int, l, l);
            lemma_product_bound(qy as int, qy as int, l, l);
            lemma_product_bound(rx as int, rx as int, l, l);
            lemma_product_bound(ry as int, ry as int, l, l);
            lemma_product_bound(qx as int, ry as int, l, l);
            lemma_product_bound(qy as int, rx as int, l, l);
            lemma_product_bound(rx as int, py as int, l, l);
            lemma_product_bound(ry as int, px as int, l, l);
            lemma_product_bound(px as int, qy as int, l, l);
            lemma_product_bound(py as int, qx as int, l, l);
        }
        let cqr = qx * ry - qy * rx;
        let crp = rx * py - ry * px;
        let cpq = px * qy - py * qx;
        proof {
            let l2: int = 0x100_0000_0000_0000;
            lemma_product_bound(lp as int, cqr as int, 2 * l2, 2 * l2);
            lemma_product_bound(lq as int, crp as int, 2 * l2, 2 * l2);
            lemma_product_bound(lr as int, cpq as int, 2 * l2, 2 * l2);
        }
        lp * cqr + lq * crp + lr * cpq
    }

    /// The in-circle determinant of `triangle1` with the corner of `triangle2`
    /// that `triangle1` lacks: the 4×4 determinant with rows `[x, y, x² + y², 1]`.
    pub fn determinant(triangle1: &Tri, triangle2: &Tri, pos: &[Vec2]) -> (r: i128)
        requires
            triangle1.0 < pos@.len() && triangle1.1 < pos@.len() && triangle1.2 < pos@.len(),
            triangle2.0 < pos@.len() && triangle2.1 < pos@.len() && triangle2.2 < pos@.len(),
            forall|i: int| 0 <= i < pos@.len() ==> (#[trigger] pos@[i]).bounded(),
        ensures
            r == pair_det(pos@, *triangle1, *triangle2),
    {
        let t2 = *triangle2;
        let d = if !Self::indice_in_triangle(t2.0, triangle1) {
            t2.0
        } else if !Self::indice_in_triangle(t2.1, triangle1) {
            t2.1
        } else {
            t2.2
        };
        let a = pos[triangle1.0];
        let b = pos[triangle1.1];
        let c = pos[triangle1.2];
        let p = pos[d];
        let abc = Self::lifted_det3_of(a, b, c);
        let abd = Self::lifted_det3_of(a, b, p);
        let acd = Self::lifted_det3_of(a, c, p);
        let bcd = Self::lifted_det3_of(b, c, p);
        abc - abd + acd - bcd
    }

    /// Whether `t1` and `t2` violate the Delaunay condition (see `violates`).
    pub fn in_circle_violated(t1: &Tri, t2: &Tri, points: &[Vec2]) -> (r: bool)
        requires
            t1.0 < points@.len() && t1.1 < points@.len() && t1.2 < points@.len(),
            t2.0 < points@.len() && t2.1 < points@.len() && t2.2 < points@.len(),
            forall|i: int| 0 <= i < points@.len() ==> (#[trigger] points@[i]).bounded(),
        ensures
            r == violates(points@, *t1, *t2),
    {
        let proper1 = t1.0 != t1.1 && t1.0 != t1.2 && t1.1 != t1.2;
        let proper2 = t2.0 != t2.1 && t2.0 != t2.2 && t2.1 != t2.2;
        if !proper1 || !proper2 {
            return false;
        }
        let mut shared: u8 = 0;
        if Self::indice_in_triangle(t1.0, t2) {
            shared += 1;
        }
        if Self::indice_in_triangle(t1.1, t2) {
            shared += 1;
        }
        if Self::indice_in_triangle(t1.2, t2) {
            shared += 1;
        }
        if shared != 2 {
            return false;
        }
        let orient = Self::prod_vec(points[t1.0], points[t1.1], points[t1.2]);
        if orient == 0 {
            return false;
        }
        let det = Self::determinant(t1, t2, points);
        (orient > 0 && det > 0) || (orient < 0 && det < 0)
    }
}


proof fn lemma_flatten_push(ts: Seq<Tri>, t: Tri)
    ensures
        flatten(ts.push(t)) == flatten(ts) + seq![t.0, t.1, t.2],
{
    let a = flatten(ts.push(t));
    let b = flatten(ts) + seq![t.0, t.1, t.2];
    assert forall|i: int| 0 <= i < a.len() implies #[trigger] a[i] == b[i] by {
        let k = i / 3;
        if i < 3 * ts.len() {
            assert(k < ts.len());
            assert(ts.push(t)[k] == ts[k]);
        } else {
            assert(k == ts.len());
        }
    }
    assert(a =~= b);
}

proof fn lemma_first_violation_bounds(ps: Seq<Vec2>, t: Tri, rest: Seq<Tri>, k: int)
    requires
        0 <= k <= rest.len(),
    ensures
        k <= first_violation(ps, t, rest, k) <= rest.len(),
        first_violation(ps, t, rest, k) < rest.len() ==> violates(
            ps,
            t,
            rest[first_violation(ps, t, rest, k)],
        ),
        (forall|j: int| k <= j < rest.len() ==> !violates(ps, t, #[trigger] rest[j]))
            ==> first_violation(ps, t, rest, k) == rest.len(),
    decreases rest.len() - k,
{
    if k < rest.len() && !violates(ps, t, rest[k]) {
        lemma_first_violation_bounds(ps, t, rest, k + 1);
    }
}

/// Taking the last triangle off a list that meets the Delaunay condition finds
/// no violation, and leaves a list that meets it.
proof fn lemma_delaunay_pop(ps: Seq<Vec2>, work: Seq<Tri>)
    requires
        is_delaunay(ps, work),
        work.len() > 0,
    ensures
        first_violation(ps, work.last(), work.drop_last(), 0) == work.len() - 1,
        is_delaunay(ps, work.drop_last()),
{
    let t = work.last();
    let rest = work.drop_last();
        assert forall|j: int| 0 <= j < rest.len() implies !violates(ps, t, #[trigger] rest[j]) by {
            assert(work[work.len() - 1] == t);
            assert(work[j] == rest[j]);
        }
        lemma_first_violation_bounds(ps, t, rest, 0);
        assert forall|i: int, j: int|
            0 <= i < rest.len() && 0 <= j < rest.len() && i != j implies !violates(
            ps,
            #[trigger] rest[i],
            #[trigger] rest[j],
        ) by {
            assert(work[i] == rest[i]);
            assert(work[j] == rest[j]);
        }
}

proof fn lemma_flip_run_delaunay(ps: Seq<Vec2>, work: Seq<Tri>, done: Seq<Tri>)
    requires
        is_delaunay(ps, work),
    ensures
        flip_run(ps, work, done) == work + done,
    decreases work.len(),
{
    if work.len() > 0 {
        let t = work.last();
        let rest = work.drop_last();
        lemma_delaunay_pop(ps, work);
        lemma_flip_run_delaunay(ps, rest, seq![t] + done);
        assert(rest + (seq![t] + done) =~= work + done);
    }
}

proof fn lemma_flip_run_requeue_delaunay(ps: Seq<Vec2>, work: Seq<Tri>, done: Seq<Tri>, fuel: nat)
    requires
        is_delaunay(ps, work),
    ensures
        flip_run_requeue(ps, work, done, fuel) == work + done,
    decreases work.len(),
{
    if work.len() > 0 {
        let t = work.last();
        let rest = work.drop_last();
        lemma_delaunay_pop(ps, work);
        lemma_flip_run_requeue_delaunay(ps, rest, seq![t] + done, fuel);
        assert(rest + (seq![t] + done) =~= work + done);
    }
}

/// Edge flipping leaves a list that already meets the Delaunay condition as it
/// is: every triangle comes out unchanged and in its place.
pub proof fn lemma_flip_keeps_delaunay(ps: Seq<Vec2>, ix: Seq<usize>)
    requires
        ix.len() % 3 == 0,
        is_delaunay(ps, triangles_of(ix)),
    ensures
        flipped_of(ps, ix) == ix,
        flipped_requeue_of(ps, ix) == ix,
{
    lemma_flip_run_delaunay(ps, triangles_of(ix), seq![]);
    lemma_flip_run_requeue_delaunay(ps, triangles_of(ix), seq![], flip_budget(ix.len() / 3));
    assert(triangles_of(ix) + seq![] =~= triangles_of(ix));
    lemma_flatten_triangles(ix);
}

impl Incremental2dTriangulation {
    /// The index list of the triangles in reverse order.
    fn flatten_reversed(done: &Vec<Tri>) -> (out: Vec<usize>)
        ensures
            out@ == flatten(done@.reverse()),
    {
        let mut out: Vec<usize> = Vec::new();
        let mut k: usize = done.len();
        while k > 0
            invariant
                k <= done@.len(),
                out@ == flatten(done@.reverse().take(done@.len() - k)),
            decreases k,
        {
            k -= 1;
            let t = done[k];
            proof {
                let r = done@.reverse();
                assert(r.take(done@.len() - k) =~= r.take(done@.len() - k - 1).push(t));
                lemma_flatten_push(r.take(done@.len() - k - 1), t);
            }
            out.push(t.0);
            out.push(t.1);
            out.push(t.2);
        }
        proof {
            let r = done@.reverse();
            assert(r.take(done@.len() as int) =~= r);
        }
        out
    }

    /// Legalizes the index list over `points` as `edge_flipping` does, but
    /// keeps both new triangles of each flip on the worklist, so that each is
    /// examined again (see `flip_run_requeue`); at most `flip_budget` flips are
    /// made. The budget covers the flips of a triangulation of at most `t + 2`
    /// points; on other lists the pass may stop flipping when it is spent and
    /// finish the remaining triangles as they are, violations included.
    pub fn edge_flipping_requeue(indices: &mut Vec<usize>, points: &[Vec2])
        requires
            old(indices)@.len() % 3 == 0,
            forall|i: int| 0 <= i < old(indices)@.len() ==> #[trigger] old(indices)@[i] < points@.len(),
            forall|i: int| 0 <= i < points@.len() ==> (#[trigger] points@[i]).bounded(),
        ensures
            final(indices)@ == flipped_requeue_of(points@, old(indices)@),
            final(indices)@.len() == old(indices)@.len(),
            valid_index_list(old(indices)@, points@.len() as int) ==> valid_index_list(
                final(indices)@,
                points@.len() as int,
            ),
    {
        let ghost n = points@.len() as int;
        let ghost proper = valid_index_list(old(indices)@, n);
        let len = indices.len();
        let triangles = Self::get_triangles(indices);
        let ghost count = triangles@.len();
        let t_count = (len / 3) as u128;
        proof {
            assert(t_count < 0x8000_0000_0000_0000);
            assert((t_count + 2) * (t_count + 1) <= 0x8000_0000_0000_0002 * 0x8000_0000_0000_0001)
                by (nonlinear_arith)
                requires
                    t_count < 0x8000_0000_0000_0000,
            ;
        }
        let mut fuel: u128 = (t_count + 2) * (t_count + 1) / 2;
        let ghost total = flip_run_requeue(points@, triangles@, seq![], fuel as nat);
        proof {
            assert(fuel as nat == flip_budget(old(indices)@.len() / 3));
            lemma_triangles_in_range(old(indices)@, n);
            if proper {
                lemma_triangles_distinct(old(indices)@, n);
            }
            assert(Seq::<Tri>::empty().reverse() =~= seq![]);
        }
        let mut work = triangles;
        let mut done: Vec<Tri> = Vec::new();
        while work.len() > 0
            invariant
                n == points@.len(),
                forall|i: int| 0 <= i < points@.len() ==> (#[trigger] points@[i]).bounded(),
                flip_run_requeue(points@, work@, done@.reverse(), fuel as nat) == total,
                tris_in_range(work@, n),
                tris_in_range(done@, n),
                work@.len() + done@.len() == count,
                proper ==> forall|k: int| 0 <= k < work@.len() ==> distinct_tri(#[trigger] work@[k]),
                proper ==> forall|k: int| 0 <= k < done@.len() ==> distinct_tri(#[trigger] done@[k]),
            decreases fuel, work@.len(),
        {
            let ghost before = work@;
            let t = work.pop().unwrap();
            proof {
                assert(before.last() == t);
                assert(before.drop_last() =~= work@);
                assert(before[before.len() - 1] == t);
            }
            let j = Self::first_violation_index(&t, &work, points);
            proof {
                lemma_first_violation_bounds(points@, t, work@, 0);
            }
            let ghost old_done = done@;
            if fuel > 0 && j < work.len() {
                let other = work[j];
                let (n1, n2) = Self::flip_of(&t, &other);
                proof {
                    lemma_flip_pair_corners(t, other, n);
                }
                work[j] = n2;
                work.push(n1);
                fuel -= 1;
            } else {
                done.push(t);
                proof {
                    assert(done@.reverse() =~= seq![done@.last()] + old_done.reverse());
                }
            }
        }
        proof {
            assert(done@.reverse() == total);
        }
        let out = Self::flatten_reversed(&done);
        proof {
            let r = done@.reverse();
            assert(tris_in_range(r, n));
            if proper {
                assert forall|k: int| 0 <= k < r.len() implies distinct_tri(#[trigger] r[k]) by {
                    assert(r[k] == done@[done@.len() - 1 - k]);
                }
                lemma_flatten_valid(r, n);
            }
        }
        *indices = out;
    }

    /// Legalizes the index list over `points` (see `flip_run`): the triangles
    /// are taken as a worklist, from its end, and each is flipped with the first
    /// remaining triangle it violates the Delaunay condition with. A list whose
    /// triples are proper stays proper, and the number of triangles is kept.
    pub fn edge_flipping(indices: &mut Vec<usize>, points: &[Vec2])
        requires
            old(indices)@.len() % 3 == 0,
            forall|i: int| 0 <= i < old(indices)@.len() ==> #[trigger] old(indices)@[i] < points@.len(),
            forall|i: int| 0 <= i < points@.len() ==> (#[trigger] points@[i]).bounded(),
        ensures
            final(indices)@ == flipped_of(points@, old(indices)@),
            final(indices)@.len() == old(indices)@.len(),
            valid_index_list(old(indices)@, points@.len() as int) ==> valid_index_list(
                final(indices)@,
                points@.len() as int,
            ),
    {
        let ghost n = points@.len() as int;
        let ghost proper = valid_index_list(old(indices)@, n);
        let triangles = Self::get_triangles(indices);
        let ghost count = triangles@.len();
        let ghost total = flip_run(points@, triangles@, seq![]);
        proof {
            lemma_triangles_in_range(old(indices)@, n);
            if proper {
                lemma_triangles_distinct(old(indices)@, n);
            }
            assert(Seq::<Tri>::empty().reverse() =~= seq![]);
        }
        let mut work = triangles;
        let mut done: Vec<Tri> = Vec::new();
        while work.len() > 0
            invariant
                n == points@.len(),
                forall|i: int| 0 <= i < points@.len() ==> (#[trigger] points@[i]).bounded(),
                flip_run(points@, work@, done@.reverse()) == total,
                tris_in_range(work@, n),
                tris_in_range(done@, n),
                work@.len() + done@.len() == count,
                proper ==> forall|k: int| 0 <= k < work@.len() ==> distinct_tri(#[trigger] work@[k]),
                proper ==> forall|k: int| 0 <= k < done@.len() ==> distinct_tri(#[trigger] done@[k]),
            decreases work@.len(),
        {
            let ghost before = work@;
            let t = work.pop().unwrap();
            proof {
                assert(before.last() == t);
                assert(before.drop_last() =~= work@);
                assert(before[before.len() - 1] == t);
            }
            let j = Self::first_violation_index(&t, &work, points);
            proof {
                lemma_first_violation_bounds(points@, t, work@, 0);
            }
            let ghost old_done = done@;
            if j < work.len() {
                let other = work.remove(j);
                let (n1, n2) = Self::flip_of(&t, &other);
                proof {
                    lemma_flip_pair_corners(t, other, n);
                }
                work.push(n1);
                done.push(n2);
            } else {
                done.push(t);
            }
            proof {
                assert(done@.reverse() =~= seq![done@.last()] + old_done.reverse());
            }
        }
        proof {
            assert(done@.reverse() == total);
        }
        let out = Self::flatten_reversed(&done);
        proof {
            let r = done@.reverse();
            assert(tris_in_range(r, n));
            if proper {
                assert forall|k: int| 0 <= k < r.len() implies distinct_tri(#[trigger] r[k]) by {
                    assert(r[k] == done@[done@.len() - 1 - k]);
                }
                lemma_flatten_valid(r, n);
            }
        }
        *indices = out;
    }
}

} // verus!
