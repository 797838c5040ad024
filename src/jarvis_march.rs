//! Convex hull by gift wrapping (Jarvis march).

use vstd::prelude::*;

use crate::geometry::{shoelace_of, Vec2};

verus! {

/// Index of the lexicographically least point among the first `k` (`k >= 1`);
/// among equal points the first one wins.
pub open spec fn leftmost_upto(ps: Seq<Vec2>, k: int) -> int
    decreases k,
{
    if k <= 1 {
        0
    } else {
        let b = leftmost_upto(ps, k - 1);
        if ps[k - 1].lex_lt(ps[b]) {
            k - 1
        } else {
            b
        }
    }
}

/// Index of the leftmost point: least `x`, then least `y`, the first among equals.
pub open spec fn leftmost_index(ps: Seq<Vec2>) -> int {
    leftmost_upto(ps, ps.len() as int)
}

/// The wrapping candidate after scanning the first `k` points from hull point
/// `cur`: it starts at index 0 and moves to each scanned point that is the
/// current point itself, or that the candidate lies clockwise of.
pub open spec fn candidate_upto(ps: Seq<Vec2>, cur: int, k: int) -> int
    decreases k,
{
    if k <= 0 {
        0
    } else {
        let b = candidate_upto(ps, cur, k - 1);
        if b == cur || shoelace_of(ps[cur], ps[k - 1], ps[b]) < 0 {
            k - 1
        } else {
            b
        }
    }
}

/// The hull point that follows `cur` when wrapping.
pub open spec fn next_hull(ps: Seq<Vec2>, cur: int) -> int {
    candidate_upto(ps, cur, ps.len() as int)
}

/// The wrap from `cur` back to `start`, at most `steps` points long.
pub open spec fn gift_wrap(ps: Seq<Vec2>, start: int, cur: int, steps: nat) -> Seq<usize>
    decreases steps,
{
    if steps == 0 {
        seq![]
    } else {
        let nx = next_hull(ps, cur);
        if steps == 1 || nx == start {
            seq![cur as usize]
        } else {
            seq![cur as usize] + gift_wrap(ps, start, nx, (steps - 1) as nat)
        }
    }
}

/// The hull indices that a march yields: empty below two points, else the
/// wrap that starts at the leftmost point, guarded to at most one index per point.
pub open spec fn march_of(ps: Seq<Vec2>) -> Seq<usize> {
    if ps.len() < 2 {
        seq![]
    } else {
        let lm = leftmost_index(ps);
        gift_wrap(ps, lm, lm, ps.len())
    }
}

/// The points at the given indices.
pub open spec fn points_at(ps: Seq<Vec2>, idx: Seq<usize>) -> Seq<Vec2> {
    idx.map_values(|i: usize| ps[i as int])
}

proof fn lemma_candidate_in_range(ps: Seq<Vec2>, cur: int, k: int)
    requires
        0 <= k <= ps.len(),
        ps.len() >= 1,
    ensures
        0 <= candidate_upto(ps, cur, k) < ps.len(),
        k >= 1 ==> candidate_upto(ps, cur, k) < k,
    decreases k,
{
    if k > 0 {
        lemma_candidate_in_range(ps, cur, k - 1);
    }
}

proof fn lemma_wrap_bounds(ps: Seq<Vec2>, start: int, cur: int, steps: nat)
    requires
        0 <= cur < ps.len(),
    ensures
        gift_wrap(ps, start, cur, steps).len() <= steps,
        steps >= 1 ==> gift_wrap(ps, start, cur, steps).len() >= 1,
        steps >= 1 ==> gift_wrap(ps, start, cur, steps)[0] == cur as usize,
        forall|i: int|
            0 <= i < gift_wrap(ps, start, cur, steps).len() ==> #[trigger] gift_wrap(
                ps,
                start,
                cur,
                steps,
            )[i] < ps.len(),
    decreases steps,
{
    if steps > 0 {
        let nx = next_hull(ps, cur);
        lemma_candidate_in_range(ps, cur, ps.len() as int);
        lemma_wrap_bounds(ps, start, nx, (steps - 1) as nat);
        if !(steps == 1 || nx == start) {
            let rest = gift_wrap(ps, start, nx, (steps - 1) as nat);
            assert forall|i: int|
                0 <= i < gift_wrap(ps, start, cur, steps).len() implies #[trigger] gift_wrap(
                    ps,
                    start,
                    cur,
                    steps,
                )[i] < ps.len() by {
                if i > 0 {
                    assert(gift_wrap(ps, start, cur, steps)[i] == rest[i - 1]);
                }
            }
        }
    }
}

/// The shoelace value of `(o, p, q)` is the cross product of `p - o` and `q - o`.
proof fn lemma_shoelace_cross(o: Vec2, p: Vec2, q: Vec2)
    ensures
        shoelace_of(o, p, q) == (p.x - o.x) * (q.y - o.y) - (p.y - o.y) * (q.x - o.x),
{
    let (ox, oy, px, py, qx, qy) = (o.x as int, o.y as int, p.x as int, p.y as int, q.x as int, q.y as int);
    assert(ox * py - px * oy + px * qy - qx * py + qx * oy - ox * qy == (px - ox) * (qy - oy) - (py
        - oy) * (qx - ox)) by (nonlinear_arith);
}

/// For directions in the half-plane `x > 0`, plus the upward ray, the
/// counter-clockwise order is transitive: if `b` is no earlier than `a` and
/// `c` is strictly after `b`, then `c` is no earlier than `a`.
proof fn lemma_half_plane_order(ax: int, ay: int, bx: int, by: int, cx: int, cy: int)
    requires
        ax > 0 || (ax == 0 && ay >= 0),
        bx > 0 || (bx == 0 && by >= 0),
        cx > 0 || (cx == 0 && cy >= 0),
        ax * by - ay * bx >= 0,
        bx * cy - by * cx > 0,
    ensures
        ax * cy - ay * cx >= 0,
{
    assert((ax * cy - ay * cx) * bx == (ax * by - ay * bx) * cx + (bx * cy - by * cx) * ax)
        by (nonlinear_arith);
    if bx == 0 {
        assert(bx * cy - by * cx == -(by * cx)) by (nonlinear_arith)
            requires
                bx == 0,
        ;
        assert(by * cx >= 0) by (nonlinear_arith)
            requires
                by >= 0,
                cx >= 0,
        ;
    } else {
        assert((ax * by - ay * bx) * cx + (bx * cy - by * cx) * ax >= 0) by (nonlinear_arith)
            requires
                ax * by - ay * bx >= 0,
                bx * cy - by * cx > 0,
                cx >= 0,
                ax >= 0,
        ;
        assert(ax * cy - ay * cx >= 0) by (nonlinear_arith)
            requires
                (ax * cy - ay * cx) * bx >= 0,
                bx > 0,
        ;
    }
}

/// From a point `cur` with no point to its left and none straight below it,
/// every point scanned so far lies on or to the right of the ray from `cur`
/// to the current wrapping candidate.
proof fn lemma_candidate_support(ps: Seq<Vec2>, cur: int, k: int)
    requires
        0 <= cur < ps.len(),
        0 <= k <= ps.len(),
        forall|j: int|
            0 <= j < ps.len() ==> (#[trigger] ps[j]).x > ps[cur].x || (ps[j].x == ps[cur].x
                && ps[j].y >= ps[cur].y),
    ensures
        candidate_upto(ps, cur, k) == cur ==> cur == 0 && k <= 1,
        forall|j: int|
            0 <= j < k ==> shoelace_of(ps[cur], #[trigger] ps[j], ps[candidate_upto(ps, cur, k)])
                >= 0,
    decreases k,
{
    lemma_candidate_in_range(ps, cur, k);
    if k > 0 {
        lemma_candidate_support(ps, cur, k - 1);
        lemma_candidate_in_range(ps, cur, k - 1);
        let b = candidate_upto(ps, cur, k - 1);
        let o = ps[cur];
        let c = k - 1;
        assert(shoelace_of(o, ps[c], ps[c]) == 0) by (nonlinear_arith);
        if b == cur || shoelace_of(o, ps[c], ps[b]) < 0 {
            assert forall|j: int| 0 <= j < k implies shoelace_of(o, #[trigger] ps[j], ps[c]) >= 0 by {
                if j < c {
                    if b == cur {
                        assert(j == cur);
                        assert(shoelace_of(o, o, ps[c]) == 0) by (nonlinear_arith);
                    } else {
                        let (pa, pb, pc) = (ps[j], ps[b], ps[c]);
                        lemma_shoelace_cross(o, pa, pb);
                        lemma_shoelace_cross(o, pb, pc);
                        lemma_shoelace_cross(o, pc, pb);
                        lemma_shoelace_cross(o, pa, pc);
                        assert(shoelace_of(o, pb, pc) == -shoelace_of(o, pc, pb)) by (
                        nonlinear_arith);
                        lemma_half_plane_order(
                            pa.x - o.x,
                            pa.y - o.y,
                            pb.x - o.x,
                            pb.y - o.y,
                            pc.x - o.x,
                            pc.y - o.y,
                        );
                    }
                }
            }
        }
    }
}

/// Every point lies on or to the right of the first hull edge, from the
/// leftmost point to the point that the wrap takes next.
pub proof fn lemma_first_edge_supports(ps: Seq<Vec2>)
    requires
        ps.len() >= 2,
    ensures
        forall|j: int|
            0 <= j < ps.len() ==> shoelace_of(
                ps[leftmost_index(ps)],
                ps[next_hull(ps, leftmost_index(ps))],
                #[trigger] ps[j],
            ) <= 0,
{
    let lm = leftmost_index(ps);
    lemma_leftmost_least(ps, ps.len() as int);
    lemma_candidate_support(ps, lm, ps.len() as int);
    let b = next_hull(ps, lm);
    lemma_candidate_in_range(ps, lm, ps.len() as int);
    assert forall|j: int| 0 <= j < ps.len() implies shoelace_of(ps[lm], ps[b], #[trigger] ps[j]) <= 0 by {
        let (o, pb, pj) = (ps[lm], ps[b], ps[j]);
        assert(shoelace_of(o, pj, pb) >= 0);
        assert(shoelace_of(o, pb, pj) == -shoelace_of(o, pj, pb)) by (nonlinear_arith);
    }
}

proof fn lemma_leftmost_least(ps: Seq<Vec2>, k: int)
    requires
        1 <= k <= ps.len(),
    ensures
        0 <= leftmost_upto(ps, k) < k,
        forall|j: int|
            0 <= j < k ==> (#[trigger] ps[j]).x > ps[leftmost_upto(ps, k)].x || (ps[j].x
                == ps[leftmost_upto(ps, k)].x && ps[j].y >= ps[leftmost_upto(ps, k)].y),
    decreases k,
{
    if k > 1 {
        lemma_leftmost_least(ps, k - 1);
    }
}

/// Gift-wrapping hull state: the input points and the hull they currently have.
pub struct JarvisMarch {
    points: Vec<Vec2>,
    hull: Vec<Vec2>,
}

impl JarvisMarch {
    pub closed spec fn points_view(&self) -> Seq<Vec2> {
        self.points@
    }

    pub closed spec fn hull_view(&self) -> Seq<Vec2> {
        self.hull@
    }

    /// The hull is always the march of the current points.
    pub closed spec fn wf(&self) -> bool {
        self.hull@ == points_at(self.points@, march_of(self.points@))
    }

    /// No points, and so no hull.
    pub fn new() -> (r: Self)
        ensures
            r.wf(),
            r.points_view() == Seq::<Vec2>::empty(),
            r.hull_view() == Seq::<Vec2>::empty(),
    {
        let r = JarvisMarch { points: Vec::new(), hull: Vec::new() };
        assert(points_at(r.points@, march_of(r.points@)) =~= r.hull@);
        r
    }

    /// The input points, in the order they were added.
    pub fn points(&self) -> (r: &Vec<Vec2>)
        ensures
            r@ == self.points_view(),
    {
        &self.points
    }

    /// The current hull, in wrapping order from the leftmost point.
    pub fn hull(&self) -> (r: &Vec<Vec2>)
        ensures
            r@ == self.hull_view(),
    {
        &self.hull
    }

    /// Adds an input point and recomputes the hull.
    pub fn add_point(&mut self, point: Vec2)
        ensures
            final(self).wf(),
            final(self).points_view() == old(self).points_view().push(point),
            final(self).hull_view() == points_at(
                final(self).points_view(),
                march_of(final(self).points_view()),
            ),
    {
        self.points.push(point);
        let idx = Self::march(self.points.as_slice());
        let mut hull: Vec<Vec2> = Vec::new();
        let mut k: usize = 0;
        while k < idx.len()
            invariant
                idx@ == march_of(self.points@),
                0 <= k <= idx.len(),
                forall|i: int| 0 <= i < idx.len() ==> #[trigger] idx@[i] < self.points@.len(),
                hull@ == points_at(self.points@, idx@.take(k as int)),
            decreases idx.len() - k,
        {
            hull.push(self.points[idx[k]]);
            k += 1;
            assert(points_at(self.points@, idx@.take(k as int)) =~= hull@);
        }
        assert(idx@.take(k as int) =~= idx@);
        self.hull = hull;
    }

    /// Adds `n` random points in the square of half side `RANDOM_EXTENT`.
    pub fn random_points(&mut self, n: usize)
        requires
            old(self).wf(),
        ensures
            final(self).wf(),
            final(self).points_view().len() == old(self).points_view().len() + n,
            final(self).points_view().take(old(self).points_view().len() as int)
                == old(self).points_view(),
            forall|i: int|
                old(self).points_view().len() <= i < final(self).points_view().len()
                    ==> (#[trigger] final(self).points_view()[i]).bounded(),
    {
        let ghost start = self.points@;
        let mut k: usize = 0;
        while k < n
            invariant
                k <= n,
                self.wf(),
                self.points@.len() == start.len() + k,
                self.points@.take(start.len() as int) == start,
                forall|i: int|
                    start.len() <= i < self.points@.len() ==> (#[trigger] self.points@[i]).bounded(),
            decreases n - k,
        {
            let p = Vec2::random_in_extent();
            let ghost before = self.points@;
            self.add_point(p);
            assert(self.points@.take(start.len() as int) =~= before.take(start.len() as int));
            k += 1;
        }
    }

    /// Removes all the points.
    pub fn clear(&mut self)
        ensures
            final(self).wf(),
            final(self).points_view() == Seq::<Vec2>::empty(),
            final(self).hull_view() == Seq::<Vec2>::empty(),
    {
        self.points.clear();
        self.hull.clear();
        assert(points_at(self.points@, march_of(self.points@)) =~= self.hull@);
    }

    /// Index of the leftmost point (least `x`, then least `y`, first among equals).
    fn leftmost_point(points: &[Vec2]) -> (r: usize)
        requires
            points@.len() >= 1,
        ensures
            r as int == leftmost_index(points@),
            r < points@.len(),
            forall|j: int| 0 <= j < points@.len() ==> !(#[trigger] points@[j]).lex_lt(points@[r as int]),
    {
        let mut best: usize = 0;
        let mut k: usize = 1;
        while k < points.len()
            invariant
                1 <= k <= points@.len(),
                best as int == leftmost_upto(points@, k as int),
                best < k,
                forall|j: int| 0 <= j < k ==> !(#[trigger] points@[j]).lex_lt(points@[best as int]),
            decreases points@.len() - k,
        {
            let p = points[k];
            let b = points[best];
            if p.x < b.x || (p.x == b.x && p.y < b.y) {
                best = k;
            }
            k += 1;
        }
        best
    }

    /// The point that follows `cur` on the hull.
    fn next_point(points: &[Vec2], cur: usize) -> (r: usize)
        requires
            cur < points@.len(),
        ensures
            r as int == next_hull(points@, cur as int),
            r < points@.len(),
    {
        let mut best: usize = 0;
        let mut k: usize = 0;
        while k < points.len()
            invariant
                0 <= k <= points@.len(),
                cur < points@.len(),
                best as int == candidate_upto(points@, cur as int, k as int),
                best < points@.len(),
            decreases points@.len() - k,
        {
            if best == cur || Vec2::shoelace(points[cur], points[k], points[best]) < 0 {
                best = k;
            }
            k += 1;
        }
        best
    }

    /// Indices of the points that form the convex hull, in wrapping order from
    /// the leftmost point; empty below two points. The wrap stops when it comes
    /// back to the leftmost point, or after one index per point.
    pub fn march(points: &[Vec2]) -> (r: Vec<usize>)
        ensures
            r@ == march_of(points@),
            r@.len() <= points@.len(),
            points@.len() >= 2 ==> r@.len() >= 1 && r@[0] as int == leftmost_index(points@),
            forall|i: int| 0 <= i < r@.len() ==> #[trigger] r@[i] < points@.len(),
            r@.len() >= 2 ==> forall|j: int|
                0 <= j < points@.len() ==> shoelace_of(
                    points@[r@[0] as int],
                    points@[r@[1] as int],
                    #[trigger] points@[j],
                ) <= 0,
    {
        let mut hull: Vec<usize> = Vec::new();
        let n = points.len();
        if n < 2 {
            assert(hull@ =~= march_of(points@));
            return hull;
        }
        let start = Self::leftmost_point(points);
        let ghost total = gift_wrap(points@, start as int, start as int, n as nat);
        proof {
            lemma_wrap_bounds(points@, start as int, start as int, n as nat);
        }
        let mut cur = start;
        loop
            invariant_except_break
                hull@.len() < n,
                hull@ + gift_wrap(points@, start as int, cur as int, (n - hull@.len()) as nat)
                    == total,
            invariant
                n == points@.len(),
                n >= 2,
                start < n,
                cur < n,
            ensures
                hull@ == total,
            decreases n - hull@.len(),
        {
            let ghost steps = (n - hull@.len()) as nat;
            proof {
                assert(steps >= 1);
            }
            hull.push(cur);
            if hull.len() >= n {
                proof {
                    assert(steps == 1);
                    assert(gift_wrap(points@, start as int, cur as int, steps) =~= seq![cur]);
                    assert(hull@ =~= hull@.drop_last().push(cur));
                    assert(hull@ =~= total);
                }
                break;
            }
            let nx = Self::next_point(points, cur);
            if nx == start {
                proof {
                    assert(gift_wrap(points@, start as int, cur as int, steps) =~= seq![cur]);
                    assert(hull@ =~= hull@.drop_last().push(cur));
                    assert(hull@ =~= total);
                }
                break;
            }
            proof {
                let rest = gift_wrap(points@, start as int, nx as int, (steps - 1) as nat);
                assert(gift_wrap(points@, start as int, cur as int, steps) == seq![cur] + rest);
                assert(hull@ =~= hull@.drop_last().push(cur));
                assert(hull@ + rest =~= hull@.drop_last() + (seq![cur] + rest));
            }
            cur = nx;
        }
        proof {
            lemma_wrap_bounds(points@, start as int, start as int, n as nat);
            if hull@.len() >= 2 {
                let nx = next_hull(points@, start as int);
                lemma_candidate_in_range(points@, start as int, n as int);
                lemma_wrap_bounds(points@, start as int, nx, (n - 1) as nat);
                assert(nx != start);
                assert(total == seq![start] + gift_wrap(points@, start as int, nx, (n - 1) as nat));
                assert(hull@[1] as int == nx);
                lemma_first_edge_supports(points@);
            }
        }
        hull
    }
}

} // verus!
