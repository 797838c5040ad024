//! Incremental triangulation: sort the points, seed with the leading collinear
//! run, then fan each further point onto the hull edges that it sees.

use vstd::prelude::*;

use crate::edge_flipping::{flatten, flipped_of, flipped_requeue_of, triangles_of, Tri};
use crate::geometry::{collinear_dirs, shoelace_of, Vec2};
use crate::jarvis_march::{march_of, points_at, JarvisMarch};

verus! {

/// The points are in lexicographic order: by `x`, then by `y`.
pub open spec fn sorted_lex(ps: Seq<Vec2>) -> bool {
    forall|a: int, b: int| 0 <= a < b < ps.len() ==> !(#[trigger] ps[b]).lex_lt(#[trigger] ps[a])
}

/// Every three points of the set lie on one line.
pub open spec fn all_collinear(ps: Seq<Vec2>) -> bool {
    forall|i: int, j: int, k: int|
        0 <= i < ps.len() && 0 <= j < ps.len() && 0 <= k < ps.len() ==> #[trigger] shoelace_of(
            ps[i],
            ps[j],
            ps[k],
        ) == 0
}

/// An index list: a whole number of triples, every index below `n`, and the
/// three indices of each triple pairwise distinct.
pub open spec fn valid_index_list(r: Seq<usize>, n: int) -> bool {
    &&& r.len() % 3 == 0
    &&& forall|i: int| 0 <= i < r.len() ==> #[trigger] r[i] < n
    &&& forall|t: int|
        0 <= t && 3 * t + 2 < r.len() ==> #[trigger] r[3 * t] != r[3 * t + 1] && r[3 * t]
            != r[3 * t + 2] && r[3 * t + 1] != r[3 * t + 2]
}

/// Triple `t` of `r` names three points that turn clockwise.
pub open spec fn cw_triple_at(ps: Seq<Vec2>, r: Seq<usize>, t: int) -> bool {
    &&& r[3 * t] < ps.len()
    &&& r[3 * t + 1] < ps.len()
    &&& r[3 * t + 2] < ps.len()
    &&& shoelace_of(ps[r[3 * t] as int], ps[r[3 * t + 1] as int], ps[r[3 * t + 2] as int]) < 0
}

/// Every triple of `r` names three points that turn clockwise.
pub open spec fn cw_triples(ps: Seq<Vec2>, r: Seq<usize>) -> bool {
    &&& r.len() % 3 == 0
    &&& forall|t: int| 0 <= t && 3 * t + 2 < r.len() ==> #[trigger] cw_triple_at(ps, r, t)
}

/// The steps into and out of point `i` are collinear (`i >= 2`).
pub open spec fn steps_collinear(ps: Seq<Vec2>, i: int) -> bool {
    collinear_dirs(
        ps[i - 2].x - ps[i - 1].x,
        ps[i - 2].y - ps[i - 1].y,
        ps[i - 1].x - ps[i].x,
        ps[i - 1].y - ps[i].y,
    )
}

/// End of the collinear run that starts the points, searching from `i`.
pub open spec fn seed_from(ps: Seq<Vec2>, i: int) -> int
    decreases ps.len() - i,
{
    if i >= ps.len() {
        ps.len() as int
    } else if !steps_collinear(ps, i) {
        i
    } else {
        seed_from(ps, i + 1)
    }
}

/// Length of the leading run of points whose consecutive steps are collinear.
pub open spec fn seed_len(ps: Seq<Vec2>) -> int {
    seed_from(ps, 2)
}

/// The hull edge `j` runs from hull point `j` to the next one, wrapping around.
pub open spec fn edge_end(hull: Seq<usize>, j: int) -> int {
    if j + 1 < hull.len() {
        hull[j + 1] as int
    } else {
        hull[0] as int
    }
}

/// The triangles that point `c` makes with the first `j` hull edges of the
/// polygon `poly` that it lies clockwise of: for edge `b -> a`, triangle `(a, b, c)`.
pub open spec fn edge_tris(ps: Seq<Vec2>, poly: Seq<usize>, hull: Seq<usize>, c: usize, j: int) -> Seq<usize>
    decreases j,
{
    if j <= 0 {
        seq![]
    } else {
        let prev = edge_tris(ps, poly, hull, c, j - 1);
        let b = poly[hull[j - 1] as int];
        let a = poly[edge_end(hull, j - 1)];
        if shoelace_of(ps[a as int], ps[b as int], ps[c as int]) < 0 {
            prev + seq![a, b, c]
        } else {
            prev
        }
    }
}

/// The triangles that point `c` adds to the polygon `poly`.
pub open spec fn fan_of(ps: Seq<Vec2>, poly: Seq<usize>, c: usize) -> Seq<usize> {
    let hull = march_of(points_at(ps, poly));
    edge_tris(ps, poly, hull, c, hull.len() as int)
}

/// The polygon and the index list after the points before `i` were inserted
/// into the seed polygon `0..m`.
pub open spec fn tri_state(ps: Seq<Vec2>, m: int, i: int) -> (Seq<usize>, Seq<usize>)
    decreases i - m,
{
    if i <= m {
        (Seq::new(m as nat, |k: int| k as usize), seq![])
    } else {
        let (poly, tris) = tri_state(ps, m, i - 1);
        let fan = fan_of(ps, poly, (i - 1) as usize);
        (if fan.len() > 0 {
            poly.push((i - 1) as usize)
        } else {
            poly
        }, tris + fan)
    }
}

/// The index list that the triangulation of the sorted points `ps` yields.
pub open spec fn triangulation_of(ps: Seq<Vec2>) -> Seq<usize> {
    if ps.len() < 3 || seed_len(ps) >= ps.len() {
        seq![]
    } else {
        tri_state(ps, seed_len(ps), ps.len() as int).1
    }
}

proof fn lemma_seed_range(ps: Seq<Vec2>, i: int)
    requires
        2 <= i <= ps.len(),
    ensures
        i <= seed_from(ps, i) <= ps.len(),
    decreases ps.len() - i,
{
    if i < ps.len() && steps_collinear(ps, i) {
        lemma_seed_range(ps, i + 1);
    }
}

/// A triangle with a repeated corner has no area.
proof fn lemma_shoelace_repeated(a: Vec2, b: Vec2, c: Vec2)
    requires
        a == b || b == c || a == c,
    ensures
        shoelace_of(a, b, c) == 0,
{
    assert(shoelace_of(a, b, c) == 0) by (nonlinear_arith)
        requires
            a.x == b.x && a.y == b.y || b.x == c.x && b.y == c.y || a.x == c.x && a.y == c.y,
    ;
}

/// Appending one clockwise triple keeps an index list of clockwise triples.
proof fn lemma_cw_triples_push(ps: Seq<Vec2>, r: Seq<usize>, a: usize, b: usize, c: usize)
    requires
        cw_triples(ps, r),
        a < ps.len(),
        b < ps.len(),
        c < ps.len(),
        shoelace_of(ps[a as int], ps[b as int], ps[c as int]) < 0,
    ensures
        cw_triples(ps, r + seq![a, b, c]),
{
    let s = r + seq![a, b, c];
    assert forall|t: int| 0 <= t && 3 * t + 2 < s.len() implies #[trigger] cw_triple_at(ps, s, t) by {
        if 3 * t + 2 < r.len() {
            assert(cw_triple_at(ps, r, t));
            assert(s[3 * t] == r[3 * t]);
            assert(s[3 * t + 1] == r[3 * t + 1]);
            assert(s[3 * t + 2] == r[3 * t + 2]);
        } else {
            assert(3 * t == r.len());
            assert(s[3 * t] == a);
            assert(s[3 * t + 1] == b);
            assert(s[3 * t + 2] == c);
        }
    }
}

/// Clockwise triples are a valid index list, and need three points off one line.
proof fn lemma_cw_triples_valid(ps: Seq<Vec2>, r: Seq<usize>)
    requires
        cw_triples(ps, r),
    ensures
        valid_index_list(r, ps.len() as int),
        r.len() > 0 ==> !all_collinear(ps),
{
    assert forall|i: int| 0 <= i < r.len() implies #[trigger] r[i] < ps.len() by {
        let t = i / 3;
        assert(0 <= t && 3 * t + 2 < r.len());
        assert(cw_triple_at(ps, r, t));
    }
    assert forall|t: int| 0 <= t && 3 * t + 2 < r.len() implies #[trigger] r[3 * t] != r[3 * t + 1]
        && r[3 * t] != r[3 * t + 2] && r[3 * t + 1] != r[3 * t + 2] by {
        assert(cw_triple_at(ps, r, t));
        let a = ps[r[3 * t] as int];
        let b = ps[r[3 * t + 1] as int];
        let c = ps[r[3 * t + 2] as int];
        if a == b || b == c || a == c {
            lemma_shoelace_repeated(a, b, c);
        }
    }
    if r.len() > 0 {
        assert(cw_triple_at(ps, r, 0));
        let i = r[0] as int;
        let j = r[1] as int;
        let k = r[2] as int;
        assert(shoelace_of(ps[i], ps[j], ps[k]) < 0);
    }
}

/// A permutation of a collinear set is collinear.
proof fn lemma_collinear_permutation(old_ps: Seq<Vec2>, new_ps: Seq<Vec2>)
    requires
        new_ps.to_multiset() == old_ps.to_multiset(),
    ensures
        all_collinear(old_ps) ==> all_collinear(new_ps),
{
    broadcast use vstd::seq_lib::group_to_multiset_ensures;

    if all_collinear(old_ps) {
        assert forall|i: int, j: int, k: int|
            0 <= i < new_ps.len() && 0 <= j < new_ps.len() && 0 <= k < new_ps.len()
                implies #[trigger] shoelace_of(new_ps[i], new_ps[j], new_ps[k]) == 0 by {
            assert(new_ps.contains(new_ps[i]));
            assert(new_ps.contains(new_ps[j]));
            assert(new_ps.contains(new_ps[k]));
            assert(old_ps.to_multiset().count(new_ps[i]) > 0);
            assert(old_ps.to_multiset().count(new_ps[j]) > 0);
            assert(old_ps.to_multiset().count(new_ps[k]) > 0);
            let a = choose|a: int| 0 <= a < old_ps.len() && old_ps[a] == new_ps[i];
            let b = choose|b: int| 0 <= b < old_ps.len() && old_ps[b] == new_ps[j];
            let c = choose|c: int| 0 <= c < old_ps.len() && old_ps[c] == new_ps[k];
            assert(shoelace_of(old_ps[a], old_ps[b], old_ps[c]) == 0);
        }
    }
}

/// A triangulation state: the (sorted) point set, the index list computed
/// from it, and whether edge flipping re-examines both triangles of a flip.
pub struct Incremental2dTriangulation {
    points: Vec<Vec2>,
    triangles: Vec<usize>,
    requeue_both: bool,
}

/// Every element of a permutation of `old_ps` is an element of `old_ps`.
proof fn lemma_permutation_member(old_ps: Seq<Vec2>, new_ps: Seq<Vec2>, i: int)
    requires
        new_ps.to_multiset() == old_ps.to_multiset(),
        0 <= i < new_ps.len(),
    ensures
        exists|k: int| 0 <= k < old_ps.len() && old_ps[k] == new_ps[i],
{
    broadcast use vstd::seq_lib::group_to_multiset_ensures;

    assert(new_ps.contains(new_ps[i]));
    assert(old_ps.to_multiset().count(new_ps[i]) > 0);
}

/// Every point of the set is bounded.
pub open spec fn all_bounded(ps: Seq<Vec2>) -> bool {
    forall|i: int| 0 <= i < ps.len() ==> (#[trigger] ps[i]).bounded()
}

proof fn lemma_bounded_permutation(old_ps: Seq<Vec2>, new_ps: Seq<Vec2>)
    requires
        new_ps.to_multiset() == old_ps.to_multiset(),
        all_bounded(old_ps),
    ensures
        all_bounded(new_ps),
{
    assert forall|i: int| 0 <= i < new_ps.len() implies (#[trigger] new_ps[i]).bounded() by {
        lemma_permutation_member(old_ps, new_ps, i);
    }
}

impl Incremental2dTriangulation {
    pub closed spec fn points_view(&self) -> Seq<Vec2> {
        self.points@
    }

    pub closed spec fn triangles_view(&self) -> Seq<usize> {
        self.triangles@
    }

    pub closed spec fn requeue_view(&self) -> bool {
        self.requeue_both
    }

    /// The index list names triangles of the stored points.
    pub closed spec fn wf(&self) -> bool {
        valid_index_list(self.triangles@, self.points@.len() as int)
    }

    /// No points, and so no triangles.
    pub fn new() -> (r: Self)
        ensures
            r.wf(),
            r.points_view() == Seq::<Vec2>::empty(),
            r.triangles_view() == Seq::<usize>::empty(),
            !r.requeue_view(),
    {
        Incremental2dTriangulation { points: Vec::new(), triangles: Vec::new(), requeue_both: false }
    }

    /// Whether edge flipping keeps both triangles of a flip on the worklist.
    pub fn requeue_both(&self) -> (r: bool)
        ensures
            r == self.requeue_view(),
    {
        self.requeue_both
    }

    /// Chooses whether edge flipping keeps both triangles of a flip on the
    /// worklist (`edge_flipping_requeue`) or finishes the second (`edge_flipping`).
    pub fn set_requeue_both(&mut self, on: bool)
        ensures
            final(self).requeue_view() == on,
            final(self).points_view() == old(self).points_view(),
            final(self).triangles_view() == old(self).triangles_view(),
            old(self).wf() ==> final(self).wf(),
    {
        self.requeue_both = on;
    }

    /// The points, in the order of the last triangulation.
    pub fn points(&self) -> (r: &Vec<Vec2>)
        ensures
            r@ == self.points_view(),
    {
        &self.points
    }

    /// The index list of the triangles, into `points()`.
    pub fn triangles(&self) -> (r: &Vec<usize>)
        ensures
            r@ == self.triangles_view(),
    {
        &self.triangles
    }

    /// Adds a point and triangulates the set again; the points are reordered
    /// as the triangulation sorts them.
    pub fn add_point(&mut self, point: Vec2)
        ensures
            final(self).wf(),
            final(self).points_view().to_multiset() == old(self).points_view().push(
                point,
            ).to_multiset(),
            final(self).points_view().len() >= 3 ==> sorted_lex(final(self).points_view()),
            old(self).points_view().len() + 1 < 3 ==> final(self).points_view() == old(
                self,
            ).points_view().push(point),
            final(self).triangles_view() == triangulation_of(final(self).points_view()),
    {
        self.points.push(point);
        self.triangles = Self::triangulate(&mut self.points);
    }

    /// Triangulates the points again and legalizes the triangles by edge
    /// flipping, in the mode that `set_requeue_both` chose.
    pub fn flip_edges(&mut self)
        requires
            all_bounded(old(self).points_view()),
        ensures
            final(self).wf(),
            final(self).requeue_view() == old(self).requeue_view(),
            final(self).points_view().to_multiset() == old(self).points_view().to_multiset(),
            final(self).points_view().len() >= 3 ==> sorted_lex(final(self).points_view()),
            old(self).points_view().len() < 3 ==> final(self).points_view() == old(
                self,
            ).points_view(),
            !final(self).requeue_view() ==> final(self).triangles_view() == flipped_of(
                final(self).points_view(),
                triangulation_of(final(self).points_view()),
            ),
            final(self).requeue_view() ==> final(self).triangles_view() == flipped_requeue_of(
                final(self).points_view(),
                triangulation_of(final(self).points_view()),
            ),
    {
        let ghost before = self.points@;
        let mut indices = Self::triangulate(&mut self.points);
        proof {
            lemma_bounded_permutation(before, self.points@);
        }
        if indices.len() > 0 {
            if self.requeue_both {
                Self::edge_flipping_requeue(&mut indices, self.points.as_slice());
            } else {
                Self::edge_flipping(&mut indices, self.points.as_slice());
            }
        } else {
            proof {
                assert(triangles_of(indices@) =~= Seq::<Tri>::empty());
                assert(flatten(Seq::<Tri>::empty()) =~= indices@);
            }
        }
        self.triangles = indices;
    }

    /// Adds `n` random points in the square of half side `RANDOM_EXTENT`, one
    /// at a time, triangulating after each.
    pub fn random_points(&mut self, n: usize)
        requires
            old(self).wf(),
        ensures
            final(self).wf(),
            final(self).points_view().len() == old(self).points_view().len() + n,
            n > 0 ==> final(self).triangles_view() == triangulation_of(final(self).points_view()),
            n == 0 ==> *final(self) == *old(self),
            all_bounded(old(self).points_view()) ==> all_bounded(final(self).points_view()),
            exists|added: Seq<Vec2>|
                added.len() == n && all_bounded(added) && final(self).points_view().to_multiset()
                    == old(self).points_view().to_multiset().add(#[trigger] added.to_multiset()),
    {
        let ghost mut added: Seq<Vec2> = seq![];
        proof {
            broadcast use vstd::seq_lib::group_to_multiset_ensures;

            assert(self.points@.to_multiset() =~= old(self).points@.to_multiset().add(
                added.to_multiset(),
            ));
        }
        let mut k: usize = 0;
        while k < n
            invariant
                k <= n,
                self.points@.len() == old(self).points@.len() + k,
                self.wf(),
                k == 0 ==> *self == *old(self),
                k > 0 ==> self.triangles@ == triangulation_of(self.points@),
                all_bounded(old(self).points@) ==> all_bounded(self.points@),
                added.len() == k,
                all_bounded(added),
                self.points@.to_multiset() == old(self).points@.to_multiset().add(
                    added.to_multiset(),
                ),
            decreases n - k,
        {
            let p = Vec2::random_in_extent();
            let ghost before = self.points@;
            self.add_point(p);
            proof {
                if all_bounded(old(self).points@) {
                    assert(all_bounded(before.push(p)));
                    lemma_bounded_permutation(before.push(p), self.points@);
                }
                vstd::seq_lib::to_multiset_len(before.push(p));
                vstd::seq_lib::to_multiset_len(self.points@);
                broadcast use vstd::seq_lib::group_to_multiset_ensures;

                let a0 = added;
                added = added.push(p);
                assert(self.points@.to_multiset() =~= old(self).points@.to_multiset().add(
                    added.to_multiset(),
                ));
                assert forall|i: int| 0 <= i < added.len() implies (#[trigger] added[i]).bounded() by {
                    if i < a0.len() {
                        assert(added[i] == a0[i]);
                    }
                }
            }
            k += 1;
        }
    }

    /// Removes all the points and triangles.
    pub fn clear(&mut self)
        ensures
            final(self).wf(),
            final(self).points_view() == Seq::<Vec2>::empty(),
            final(self).triangles_view() == Seq::<usize>::empty(),
    {
        self.points.clear();
        self.triangles.clear();
    }

    /// Sorts points by increasing `x`, and by increasing `y` for equal `x`.
    fn sort(points: &mut Vec<Vec2>)
        ensures
            sorted_lex(final(points)@),
            final(points)@.len() == old(points)@.len(),
            final(points)@.to_multiset() == old(points)@.to_multiset(),
    {
        let n = points.len();
        let mut i: usize = 1;
        while i < n
            invariant
                points@.len() == n,
                1 <= i || n == 0,
                forall|a: int, b: int|
                    0 <= a < b < i && b < n ==> !(#[trigger] points@[b]).lex_lt(#[trigger] points@[a]),
                points@.to_multiset() == old(points)@.to_multiset(),
            decreases n - i,
        {
            let mut j: usize = i;
            while j > 0 && (points[j].x < points[j - 1].x || (points[j].x == points[j - 1].x
                && points[j].y < points[j - 1].y))
                invariant
                    points@.len() == n,
                    0 <= j <= i < n,
                    forall|a: int, b: int|
                        0 <= a < b <= i && a != j && b != j ==> !(#[trigger] points@[b]).lex_lt(
                            #[trigger] points@[a],
                        ),
                    forall|b: int| j < b <= i ==> (#[trigger] points@[j as int]).lex_lt(points@[b]),
                    points@.to_multiset() == old(points)@.to_multiset(),
                decreases j,
            {
                let cur = points[j];
                let prev = points[j - 1];
                let ghost before = points@;
                points[j] = prev;
                points[j - 1] = cur;
                proof {
                    broadcast use vstd::seq_lib::group_to_multiset_ensures;

                    assert(points@ =~= before.update(j as int, prev).update(j - 1, cur));
                    vstd::seq_lib::to_multiset_update(before, j as int, prev);
                    vstd::seq_lib::to_multiset_update(before.update(j as int, prev), j - 1, cur);
                    assert(points@.to_multiset() =~= before.to_multiset());
                }
                j -= 1;
            }
            i += 1;
        }
    }

    /// Triangulates the points: sorts them in place (by `x`, then `y`) and
    /// returns the index list, into the sorted points, of the triangles built by
    /// incremental insertion. Below three points, or when the points lie on one
    /// line, the list is empty and (below three points) the order is untouched.
    pub fn triangulate(points: &mut Vec<Vec2>) -> (r: Vec<usize>)
        ensures
            old(points)@.len() < 3 ==> final(points)@ == old(points)@,
            old(points)@.len() >= 3 ==> sorted_lex(final(points)@),
            final(points)@.to_multiset() == old(points)@.to_multiset(),
            r@ == triangulation_of(final(points)@),
            valid_index_list(r@, final(points)@.len() as int),
            cw_triples(final(points)@, r@),
            old(points)@.len() < 3 ==> r@.len() == 0,
            all_collinear(old(points)@) ==> r@.len() == 0,
    {
        let n = points.len();
        if n < 3 {
            let r: Vec<usize> = Vec::new();
            proof {
                lemma_cw_triples_valid(points@, r@);
            }
            return r;
        }
        Self::sort(points);
        proof {
            lemma_collinear_permutation(old(points)@, points@);
        }
        let m = Self::seed_length(points);
        if m >= n {
            let r: Vec<usize> = Vec::new();
            proof {
                lemma_cw_triples_valid(points@, r@);
            }
            return r;
        }
        let mut polygon: Vec<usize> = Vec::new();
        let mut k: usize = 0;
        while k < m
            invariant
                k <= m,
                polygon@ == Seq::new(k as nat, |q: int| q as usize),
            decreases m - k,
        {
            polygon.push(k);
            k += 1;
            assert(polygon@ =~= Seq::new(k as nat, |q: int| q as usize));
        }
        let mut indices: Vec<usize> = Vec::new();
        let mut i: usize = m;
        while i < n
            invariant
                n == points@.len(),
                m as int == seed_len(points@),
                2 <= m <= i <= n,
                (polygon@, indices@) == tri_state(points@, m as int, i as int),
                polygon@.len() >= 2,
                forall|q: int| 0 <= q < polygon@.len() ==> #[trigger] polygon@[q] < i,
                cw_triples(points@, indices@),
            decreases n - i,
        {
            let mut poly_pts: Vec<Vec2> = Vec::new();
            let mut q: usize = 0;
            while q < polygon.len()
                invariant
                    q <= polygon@.len(),
                    i < n == points@.len(),
                    forall|q: int| 0 <= q < polygon@.len() ==> #[trigger] polygon@[q] < i,
                    poly_pts@ == points_at(points@, polygon@.take(q as int)),
                decreases polygon@.len() - q,
            {
                poly_pts.push(points[polygon[q]]);
                q += 1;
                assert(poly_pts@ =~= points_at(points@, polygon@.take(q as int)));
            }
            assert(polygon@.take(q as int) =~= polygon@);
            let hull = JarvisMarch::march(poly_pts.as_slice());
            let h = hull.len();
            let mut added = false;
            let ghost tris0 = indices@;
            let mut j: usize = 0;
            while j < h
                invariant
                    h == hull@.len(),
                    h >= 1,
                    j <= h,
                    i < n == points@.len(),
                    hull@ == march_of(points_at(points@, polygon@)),
                    forall|q: int| 0 <= q < h ==> #[trigger] hull@[q] < polygon@.len(),
                    forall|q: int| 0 <= q < polygon@.len() ==> #[trigger] polygon@[q] < i,
                    indices@ == tris0 + edge_tris(points@, polygon@, hull@, i, j as int),
                    added == (edge_tris(points@, polygon@, hull@, i, j as int).len() > 0),
                    cw_triples(points@, indices@),
                decreases h - j,
            {
                let b = polygon[hull[j]];
                let a = if j + 1 < h {
                    polygon[hull[j + 1]]
                } else {
                    polygon[hull[0]]
                };
                if Vec2::cw(points[a], points[b], points[i]) {
                    let ghost before = indices@;
                    proof {
                        lemma_cw_triples_push(points@, indices@, a, b, i);
                    }
                    indices.push(a);
                    indices.push(b);
                    indices.push(i);
                    assert(indices@ =~= before + seq![a, b, i]);
                    added = true;
                    assert(indices@ =~= tris0 + edge_tris(points@, polygon@, hull@, i, j + 1));
                }
                j += 1;
            }
            if added {
                polygon.push(i);
            }
            i += 1;
        }
        proof {
            lemma_cw_triples_valid(points@, indices@);
        }
        indices
    }

    /// End of the collinear run that starts the sorted points.
    fn seed_length(points: &Vec<Vec2>) -> (m: usize)
        requires
            points@.len() >= 3,
        ensures
            m as int == seed_len(points@),
            2 <= m <= points@.len(),
    {
        let n = points.len();
        let mut i: usize = 2;
        proof {
            lemma_seed_range(points@, 2);
        }
        while i < n
            invariant
                2 <= i <= n,
                n == points@.len(),
                seed_from(points@, i as int) == seed_len(points@),
            decreases n - i,
        {
            let a = points[i - 2];
            let b = points[i - 1];
            let c = points[i];
            if !Self::steps_collinear(a, b, c) {
                return i;
            }
            i += 1;
        }
        i
    }

    /// Whether the steps `a -> b` and `b -> c` are collinear.
    fn steps_collinear(a: Vec2, b: Vec2, c: Vec2) -> (r: bool)
        ensures
            r == collinear_dirs(a.x - b.x, a.y - b.y, b.x - c.x, b.y - c.y),
    {
        let ux = a.x as i64 - b.x as i64;
        let uy = a.y as i64 - b.y as i64;
        let vx = b.x as i64 - c.x as i64;
        let vy = b.y as i64 - c.y as i64;
        if ux == 0 || vx == 0 {
            ux == vx
        } else {
            proof {
                crate::geometry::lemma_product_bound(uy as int, vx as int, 0x1_0000_0000, 0x1_0000_0000);
                crate::geometry::lemma_product_bound(vy as int, ux as int, 0x1_0000_0000, 0x1_0000_0000);
            }
            (uy as i128) * (vx as i128) == (vy as i128) * (ux as i128)
        }
    }
}

} // verus!
