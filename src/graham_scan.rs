//! Convex hull by Graham scan.

use vstd::prelude::*;

use crate::geometry::{shoelace_of, Vec2};

verus! {

/// `a` is lower than `b`: smaller `y`, then smaller `x`.
pub open spec fn below(a: Vec2, b: Vec2) -> bool {
    a.y < b.y || (a.y == b.y && a.x < b.x)
}

/// Index of the lowest point among the first `k` (`k >= 1`); the first among equals.
pub open spec fn bottom_upto(ps: Seq<Vec2>, k: int) -> int
    decreases k,
{
    if k <= 1 {
        0
    } else {
        let b = bottom_upto(ps, k - 1);
        if below(ps[k - 1], ps[b]) {
            k - 1
        } else {
            b
        }
    }
}

/// Index of the bottommost point: least `y`, then least `x`, the first among equals.
pub open spec fn bottom_index(ps: Seq<Vec2>) -> int {
    bottom_upto(ps, ps.len() as int)
}

/// Seen from pivot `p`, direction `u` comes before direction `v`: `v` lies
/// counter-clockwise of `u`.
pub open spec fn angle_before(p: Vec2, u: Vec2, v: Vec2) -> bool {
    shoelace_of(p, u, v) > 0
}

/// `v` inserted into `s` after the last element that it does not come before.
pub open spec fn insert_by_angle(p: Vec2, s: Seq<Vec2>, v: Vec2) -> Seq<Vec2>
    decreases s.len(),
{
    if s.len() == 0 || !angle_before(p, v, s.last()) {
        s.push(v)
    } else {
        insert_by_angle(p, s.drop_last(), v).push(s.last())
    }
}

/// The points of `s` sorted by angle around `p`, stably.
pub open spec fn sort_by_angle(p: Vec2, s: Seq<Vec2>) -> Seq<Vec2>
    decreases s.len(),
{
    if s.len() == 0 {
        s
    } else {
        insert_by_angle(p, sort_by_angle(p, s.drop_last()), s.last())
    }
}

/// The stack `h` after popping every top point that makes a clockwise turn
/// towards `pt`, keeping at least one point.
pub open spec fn pop_while(h: Seq<Vec2>, pt: Vec2) -> Seq<Vec2>
    decreases h.len(),
{
    if h.len() > 1 && shoelace_of(h[h.len() - 2], h[h.len() - 1], pt) < 0 {
        pop_while(h.drop_last(), pt)
    } else {
        h
    }
}

/// The stack after the first `k` sorted points were pushed onto `[p]`.
pub open spec fn scan_upto(p: Vec2, sorted: Seq<Vec2>, k: int) -> Seq<Vec2>
    decreases k,
{
    if k <= 0 {
        seq![p]
    } else {
        pop_while(scan_upto(p, sorted, k - 1), sorted[k - 1]).push(sorted[k - 1])
    }
}

/// Points `i`, `i + 1` and `i + 2` of `h` turn left or go straight on.
pub open spec fn left_turn_at(h: Seq<Vec2>, i: int) -> bool {
    shoelace_of(h[i], h[i + 1], h[i + 2]) >= 0
}

/// Every three consecutive points turn left or go straight on.
pub open spec fn left_turns(h: Seq<Vec2>) -> bool {
    forall|i: int| 0 <= i && i + 2 < h.len() ==> #[trigger] left_turn_at(h, i)
}

/// The hull that a Graham scan yields: empty below two points; else, from
/// the bottommost point, the stack left by the other points in angular order.
pub open spec fn graham_of(ps: Seq<Vec2>) -> Seq<Vec2> {
    if ps.len() < 2 {
        seq![]
    } else {
        let b = bottom_index(ps);
        let sorted = sort_by_angle(ps[b], ps.remove(b));
        scan_upto(ps[b], sorted, sorted.len() as int)
    }
}

/// Graham-scan hull state: the input points and the hull they currently have.
pub struct GrahamScan {
    points: Vec<Vec2>,
    hull: Vec<Vec2>,
}

impl GrahamScan {
    pub closed spec fn points_view(&self) -> Seq<Vec2> {
        self.points@
    }

    pub closed spec fn hull_view(&self) -> Seq<Vec2> {
        self.hull@
    }

    /// The hull is always the scan of the current points.
    pub closed spec fn wf(&self) -> bool {
        self.hull@ == graham_of(self.points@)
    }

    /// No points, and so no hull.
    pub fn new() -> (r: Self)
        ensures
            r.wf(),
            r.points_view() == Seq::<Vec2>::empty(),
            r.hull_view() == Seq::<Vec2>::empty(),
    {
        let r = GrahamScan { points: Vec::new(), hull: Vec::new() };
        assert(graham_of(r.points@) =~= r.hull@);
        r
    }

    /// The input points, in the order they were added.
    pub fn points(&self) -> (r: &Vec<Vec2>)
        ensures
            r@ == self.points_view(),
    {
        &self.points
    }

    /// The current hull, in stack order from the bottommost point.
    pub fn hull(&self) -> (r: &Vec<Vec2>)
        ensures
            r@ == self.hull_view(),
    {
        &self.hull
    }

    /// Adds an input point and recomputes the hull.
    pub fn add_point(&mut self, point: Vec2)
        ensures
            final(self).wf(),
            final(self).points_view() == old(self).points_view().push(point),
            final(self).hull_view() == graham_of(final(self).points_view()),
    {
        self.points.push(point);
        self.hull = Self::scan(self.points.as_slice());
    }

    /// Adds `n` random points in the square of half side `RANDOM_EXTENT`.
    pub fn random_points(&mut self, n: usize)
        requires
            old(self).wf(),
        ensures
            final(self).wf(),
            final(self).points_view().len() == old(self).points_view().len() + n,
            final(self).points_view().take(old(self).points_view().len() as int)
                == old(self).points_view(),
            forall|i: int|
                old(self).points_view().len() <= i < final(self).points_view().len()
                    ==> (#[trigger] final(self).points_view()[i]).bounded(),
    {
        let ghost start = self.points@;
        let mut k: usize = 0;
        while k < n
            invariant
                k <= n,
                self.wf(),
                self.points@.len() == start.len() + k,
                self.points@.take(start.len() as int) == start,
                forall|i: int|
                    start.len() <= i < self.points@.len() ==> (#[trigger] self.points@[i]).bounded(),
            decreases n - k,
        {
            let p = Vec2::random_in_extent();
            let ghost before = self.points@;
            self.add_point(p);
            assert(self.points@.take(start.len() as int) =~= before.take(start.len() as int));
            k += 1;
        }
    }

    /// Removes all the points.
    pub fn clear(&mut self)
        ensures
            final(self).wf(),
            final(self).points_view() == Seq::<Vec2>::empty(),
            final(self).hull_view() == Seq::<Vec2>::empty(),
    {
        self.points.clear();
        self.hull.clear();
        assert(graham_of(self.points@) =~= self.hull@);
    }

    /// Index of the bottommost point (least `y`, then least `x`, first among equals).
    fn bottommost_point(points: &[Vec2]) -> (r: usize)
        requires
            points@.len() >= 1,
        ensures
            r as int == bottom_index(points@),
            r < points@.len(),
    {
        let mut best: usize = 0;
        let mut k: usize = 1;
        while k < points.len()
            invariant
                1 <= k <= points@.len(),
                best as int == bottom_upto(points@, k as int),
                best < k,
            decreases points@.len() - k,
        {
            let p = points[k];
            let b = points[best];
            if p.y < b.y || (p.y == b.y && p.x < b.x) {
                best = k;
            }
            k += 1;
        }
        best
    }

    /// Whether `u` comes before `v` in angular order around `p`.
    fn angle_before_exec(p: Vec2, u: Vec2, v: Vec2) -> (r: bool)
        ensures
            r == angle_before(p, u, v),
    {
        Vec2::shoelace(p, u, v) > 0
    }

    /// The cross product `(b - a) × (c - a)`: twice the signed area of `(a, b, c)`.
    pub fn prod_vec(a: Vec2, b: Vec2, c: Vec2) -> (r: i128)
        ensures
            r == shoelace_of(a, b, c),
    {
        Vec2::shoelace(a, b, c)
    }

    /// The points that form the convex hull, in stack order: the bottommost
    /// point first, then counter-clockwise. Empty below two points.
    pub fn scan(points: &[Vec2]) -> (r: Vec<Vec2>)
        ensures
            r@ == graham_of(points@),
            points@.len() >= 2 ==> r@.len() >= 1 && r@[0] == points@[bottom_index(points@)],
            left_turns(r@),
            forall|i: int| 0 <= i < r@.len() ==> points@.contains(#[trigger] r@[i]),
    {
        let n = points.len();
        if n < 2 {
            let r: Vec<Vec2> = Vec::new();
            assert(r@ =~= graham_of(points@));
            return r;
        }
        let b = Self::bottommost_point(points);
        let pivot = points[b];
        let ghost rest = points@.remove(b as int);
        let mut sorted: Vec<Vec2> = Vec::new();
        let mut i: usize = 0;
        while i < n
            invariant
                n == points@.len(),
                b < n,
                pivot == points@[b as int],
                rest == points@.remove(b as int),
                i <= n,
                i <= b ==> sorted@ == sort_by_angle(pivot, rest.take(i as int)),
                i > b ==> sorted@ == sort_by_angle(pivot, rest.take(i - 1)),
                forall|q: int| 0 <= q < sorted@.len() ==> points@.contains(#[trigger] sorted@[q]),
            decreases n - i,
        {
            if i != b {
                let v = points[i];
                let ghost k: int = if i < b {
                    i as int
                } else {
                    i - 1
                };
                let ghost s = sorted@;
                proof {
                    assert(rest[k] == v);
                    assert(rest.take(k + 1).drop_last() =~= rest.take(k));
                    assert(rest.take(k + 1).last() == v);
                    assert(sort_by_angle(pivot, rest.take(k + 1)) == insert_by_angle(pivot, s, v));
                }
                sorted.push(v);
                let mut j: usize = sorted.len() - 1;
                assert(s.take(j as int) =~= s);
                assert(s.skip(j as int) =~= Seq::<Vec2>::empty());
                assert(insert_by_angle(pivot, s, v) =~= insert_by_angle(pivot, s.take(j as int), v)
                    + s.skip(j as int));
                assert(sorted@ =~= s.take(j as int).push(v) + s.skip(j as int));
                while j > 0 && Self::angle_before_exec(pivot, sorted[j], sorted[j - 1])
                    invariant
                        0 <= j < sorted@.len(),
                        sorted@.len() == s.len() + 1,
                        sorted@ == s.take(j as int).push(v) + s.skip(j as int),
                        insert_by_angle(pivot, s, v) == insert_by_angle(pivot, s.take(j as int), v)
                            + s.skip(j as int),
                    decreases j,
                {
                    let ghost jj = j as int;
                    let prev = sorted[j - 1];
                    proof {
                        assert(sorted@[jj] == v);
                        assert(prev == s[jj - 1]);
                        assert(s.take(jj).last() == prev);
                        assert(s.take(jj).drop_last() =~= s.take(jj - 1));
                        assert(insert_by_angle(pivot, s.take(jj), v) == insert_by_angle(
                            pivot,
                            s.take(jj - 1),
                            v,
                        ).push(prev));
                        assert(insert_by_angle(pivot, s.take(jj - 1), v).push(prev) + s.skip(jj)
                            =~= insert_by_angle(pivot, s.take(jj - 1), v) + s.skip(jj - 1));
                    }
                    sorted[j] = prev;
                    sorted[j - 1] = v;
                    j -= 1;
                    assert(sorted@ =~= s.take(j as int).push(v) + s.skip(j as int));
                }
                proof {
                    let jj = j as int;
                    if jj > 0 {
                        assert(s.take(jj).last() == s[jj - 1]);
                        assert(sorted@[jj - 1] == s[jj - 1]);
                        assert(sorted@[jj] == v);
                    } else {
                        assert(s.take(0) =~= Seq::<Vec2>::empty());
                    }
                    assert(insert_by_angle(pivot, s.take(jj), v) == s.take(jj).push(v));
                    assert(sorted@ =~= insert_by_angle(pivot, s, v));
                    assert(points@[i as int] == v);
                    assert forall|q: int| 0 <= q < sorted@.len() implies points@.contains(
                        #[trigger] sorted@[q],
                    ) by {
                        if q < jj {
                            assert(sorted@[q] == s[q]);
                        } else if q == jj {
                            assert(sorted@[q] == v);
                        } else {
                            assert(sorted@[q] == s[q - 1]);
                        }
                    }
                }
            }
            i += 1;
        }
        proof {
            assert(rest.take(n - 1) =~= rest);
        }
        let mut hull: Vec<Vec2> = Vec::new();
        hull.push(pivot);
        assert(points@.contains(points@[b as int]));
        let mut k: usize = 0;
        let ghost srt = sorted@;
        while k < sorted.len()
            invariant
                sorted@ == srt,
                k <= sorted@.len(),
                hull@ == scan_upto(pivot, srt, k as int),
                hull@.len() >= 1,
                hull@[0] == pivot,
                left_turns(hull@),
                forall|q: int| 0 <= q < hull@.len() ==> points@.contains(#[trigger] hull@[q]),
                forall|q: int| 0 <= q < srt.len() ==> points@.contains(#[trigger] srt[q]),
                pivot == points@[b as int],
                b < points@.len(),
            decreases sorted@.len() - k,
        {
            let pt = sorted[k];
            let ghost h0 = hull@;
            while hull.len() > 1 && Self::prod_vec(hull[hull.len() - 2], hull[hull.len() - 1], pt)
                < 0
                invariant
                    pop_while(h0, pt) == pop_while(hull@, pt),
                    hull@.len() >= 1,
                    hull@[0] == pivot,
                    left_turns(hull@),
                    forall|q: int| 0 <= q < hull@.len() ==> points@.contains(#[trigger] hull@[q]),
                decreases hull@.len(),
            {
                let ghost hb = hull@;
                hull.pop();
                assert(hull@ =~= hb.drop_last());
                assert forall|q: int| 0 <= q < hull@.len() implies points@.contains(
                    #[trigger] hull@[q],
                ) by {
                    assert(hull@[q] == hb[q]);
                }
                assert forall|q: int| 0 <= q && q + 2 < hull@.len() implies #[trigger] left_turn_at(
                    hull@,
                    q,
                ) by {
                    assert(left_turn_at(hb, q));
                    assert(hull@[q] == hb[q] && hull@[q + 1] == hb[q + 1] && hull@[q + 2] == hb[q + 2]);
                }
            }
            let ghost hp = hull@;
            hull.push(pt);
            proof {
                assert(points@.contains(srt[k as int]));
                assert forall|q: int| 0 <= q < hull@.len() implies points@.contains(
                    #[trigger] hull@[q],
                ) by {
                    if q < hp.len() {
                        assert(hull@[q] == hp[q]);
                    }
                }
                assert forall|q: int| 0 <= q && q + 2 < hull@.len() implies #[trigger] left_turn_at(
                    hull@,
                    q,
                ) by {
                    if q + 2 < hp.len() {
                        assert(left_turn_at(hp, q));
                        assert(hull@[q] == hp[q] && hull@[q + 1] == hp[q + 1] && hull@[q + 2]
                            == hp[q + 2]);
                    } else {
                        assert(q + 2 == hp.len());
                        assert(hull@[q] == hp[hp.len() - 2]);
                        assert(hull@[q + 1] == hp[hp.len() - 1]);
                        assert(hull@[q + 2] == pt);
                    }
                }
            }
            k += 1;
        }
        hull
    }
}

} // verus!
