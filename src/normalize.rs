use crate::data::Vect3;
use crate::number::{Ratio, COORD_LIMIT, MICRO};
use vstd::prelude::*;

verus! {

/// A point given by numerators over a shared denominator.
#[derive(Clone, Copy, Debug, PartialEq, Eq, Structural)]
pub struct Point {
    pub x: i128,
    pub y: i128,
    pub z: i128,
}

/// Normalised positions: coordinate `c` of point `i` is `points[i].c / den`
/// units, with `den > 0`.
pub struct Normalized {
    pub points: Vec<Point>,
    pub den: i128,
}

/// Coordinate `axis` (0, 1, 2 for x, y, z) of `p`, in millionths.
pub open spec fn coord(p: Vect3, axis: int) -> int {
    if axis == 0 {
        p.x as int
    } else if axis == 1 {
        p.y as int
    } else {
        p.z as int
    }
}

/// The sum of coordinate `axis` over `ps`.
pub open spec fn total(ps: Seq<Vect3>, axis: int) -> int
    decreases ps.len(),
{
    if ps.len() == 0 {
        0
    } else {
        total(ps.drop_last(), axis) + coord(ps.last(), axis)
    }
}

/// `n` times the offset of point `i` from the centroid along `axis`, where
/// `n` is the number of points: an exact integer.
pub open spec fn offset(ps: Seq<Vect3>, i: int, axis: int) -> int {
    ps.len() * coord(ps[i], axis) - total(ps, axis)
}

pub open spec fn abs(v: int) -> int {
    if v < 0 {
        -v
    } else {
        v
    }
}

pub open spec fn max(a: int, b: int) -> int {
    if a < b {
        b
    } else {
        a
    }
}

/// How far point `i` lies from the centroid, in x or y (z does not count).
pub open spec fn planar(ps: Seq<Vect3>, i: int) -> int {
    max(abs(offset(ps, i, 0)), abs(offset(ps, i, 1)))
}

/// The largest `planar` over the first `k` points.
pub open spec fn reach_upto(ps: Seq<Vect3>, k: int) -> int
    decreases k,
{
    if k <= 0 {
        0
    } else {
        max(reach_upto(ps, k - 1), planar(ps, k - 1))
    }
}

/// `n` times the largest of `|x|` and `|y|` over the centred points.
pub open spec fn reach(ps: Seq<Vect3>) -> int {
    reach_upto(ps, ps.len() as int)
}

/// Normalisation applies: there are points and they are not all on one
/// line parallel to z.
pub open spec fn scalable(ps: Seq<Vect3>) -> bool {
    ps.len() > 0 && reach(ps) > 0
}

/// The normalised positions: centred on the centroid, then scaled by
/// `0.9 / max(|x|, |y|)` on all three axes; left as they are when not
/// `scalable`.
pub open spec fn normalized_points(ps: Seq<Vect3>) -> Seq<Point> {
    if scalable(ps) {
        Seq::new(
            ps.len(),
            |i: int|
                Point {
                    x: (9 * offset(ps, i, 0)) as i128,
                    y: (9 * offset(ps, i, 1)) as i128,
                    z: (9 * offset(ps, i, 2)) as i128,
                },
        )
    } else {
        ps.map_values(|p: Vect3| Point { x: p.x as i128, y: p.y as i128, z: p.z as i128 })
    }
}

/// The denominator that goes with `normalized_points`.
pub open spec fn normalized_den(ps: Seq<Vect3>) -> int {
    if scalable(ps) {
        10 * reach(ps)
    } else {
        MICRO as int
    }
}

pub open spec fn all_wf(ps: Seq<Vect3>) -> bool {
    forall|i: int| 0 <= i < ps.len() ==> (#[trigger] ps[i]).wf()
}

/// Coordinate `axis` of `q`.
pub open spec fn pcoord(q: Point, axis: int) -> int {
    if axis == 0 {
        q.x as int
    } else if axis == 1 {
        q.y as int
    } else {
        q.z as int
    }
}

/// The sum of coordinate `axis` over `qs`.
pub open spec fn ptotal(qs: Seq<Point>, axis: int) -> int
    decreases qs.len(),
{
    if qs.len() == 0 {
        0
    } else {
        ptotal(qs.drop_last(), axis) + pcoord(qs.last(), axis)
    }
}

proof fn lemma_total_bound(ps: Seq<Vect3>, axis: int)
    requires
        all_wf(ps),
    ensures
        -(ps.len() * COORD_LIMIT) <= total(ps, axis) <= ps.len() * COORD_LIMIT,
    decreases ps.len(),
{
    if ps.len() > 0 {
        assert(ps.last() == ps[ps.len() - 1]);
        lemma_total_bound(ps.drop_last(), axis);
    }
}

proof fn lemma_mul_bound(n: int, p: int)
    requires
        0 <= n,
        -COORD_LIMIT < p < COORD_LIMIT,
    ensures
        -(n * COORD_LIMIT) <= n * p <= n * COORD_LIMIT,
{
    assert(-(n * COORD_LIMIT) <= n * p <= n * COORD_LIMIT) by (nonlinear_arith)
        requires
            0 <= n,
            -COORD_LIMIT < p < COORD_LIMIT,
    ;
}

/// Offsets stay within twice the point count times the coordinate bound.
proof fn lemma_offset_bound(ps: Seq<Vect3>, i: int, axis: int)
    requires
        all_wf(ps),
        0 <= i < ps.len(),
    ensures
        abs(offset(ps, i, axis)) <= 2 * ps.len() * COORD_LIMIT,
{
    lemma_total_bound(ps, axis);
    assert(ps[i].wf());
    lemma_mul_bound(ps.len() as int, coord(ps[i], axis));
}

/// The sums of the x, y and z coordinates of `ps`.
fn totals(ps: &Vec<Vect3>) -> (r: (i128, i128, i128))
    requires
        all_wf(ps@),
        ps@.len() < 0x1_0000_0000_0000_0000,
    ensures
        r.0 == total(ps@, 0),
        r.1 == total(ps@, 1),
        r.2 == total(ps@, 2),
{
    let mut sx: i128 = 0;
    let mut sy: i128 = 0;
    let mut sz: i128 = 0;
    let mut i: usize = 0;
    while i < ps.len()
        invariant
            i <= ps@.len() < 0x1_0000_0000_0000_0000,
            all_wf(ps@),
            sx == total(ps@.take(i as int), 0),
            sy == total(ps@.take(i as int), 1),
            sz == total(ps@.take(i as int), 2),
        decreases ps@.len() - i,
    {
        assert(ps@.take(i + 1).drop_last() =~= ps@.take(i as int));
        proof {
            lemma_total_bound(ps@.take(i as int), 0);
            lemma_total_bound(ps@.take(i as int), 1);
            lemma_total_bound(ps@.take(i as int), 2);
            assert(ps@[i as int].wf());
        }
        let p = ps[i];
        sx = sx + p.x as i128;
        sy = sy + p.y as i128;
        sz = sz + p.z as i128;
        i = i + 1;
    }
    assert(ps@.take(i as int) =~= ps@);
    (sx, sy, sz)
}

/// The centroid of a non-empty point set, in units.
pub fn centroid(ps: &Vec<Vect3>) -> (r: (Ratio, Ratio, Ratio))
    requires
        ps@.len() > 0,
        all_wf(ps@),
    ensures
        r.0 == (Ratio { num: total(ps@, 0) as i128, den: (ps@.len() * MICRO) as i128 }),
        r.1 == (Ratio { num: total(ps@, 1) as i128, den: (ps@.len() * MICRO) as i128 }),
        r.2 == (Ratio { num: total(ps@, 2) as i128, den: (ps@.len() * MICRO) as i128 }),
{
    let count = len_of(ps);
    let (sx, sy, sz) = totals(ps);
    let den = count as i128 * 1_000_000;
    (Ratio { num: sx, den }, Ratio { num: sy, den }, Ratio { num: sz, den })
}

/// The length of `ps`, which fits in 64 bits.
fn len_of(ps: &Vec<Vect3>) -> (r: usize)
    ensures
        r == ps@.len(),
        r < 0x1_0000_0000_0000_0000,
{
    ps.len()
}

/// `n` times the offset of `p` from the centroid, given the axis total `s`.
fn offset_of(n: i128, c: i64, s: i128) -> (r: i128)
    requires
        0 <= n < 0x1_0000_0000_0000_0000,
        -COORD_LIMIT < c < COORD_LIMIT,
        -(n * COORD_LIMIT) <= s <= n * COORD_LIMIT,
    ensures
        r == n * c - s,
{
    proof {
        lemma_mul_bound(n as int, c as int);
    }
    n * (c as i128) - s
}

/// Recentres positions on their centroid and scales them uniformly by
/// `0.9 / max(|x|, |y|)`; an empty set, or one with all points at the same
/// x and y, is left as it is.
pub fn normalize(ps: &Vec<Vect3>) -> (r: Normalized)
    requires
        all_wf(ps@),
    ensures
        r.points@ == normalized_points(ps@),
        r.den == normalized_den(ps@),
        r.den > 0,
{
    let count = len_of(ps);
    let ghost s = ps@;
    let (sx, sy, sz) = totals(ps);
    let n = count as i128;
    proof {
        lemma_total_bound(s, 0);
        lemma_total_bound(s, 1);
        lemma_total_bound(s, 2);
    }
    let mut best: i128 = 0;
    let mut k: usize = 0;
    while k < ps.len()
        invariant
            k <= s.len() < 0x1_0000_0000_0000_0000,
            s == ps@,
            all_wf(s),
            n == s.len(),
            sx == total(s, 0),
            sy == total(s, 1),
            -(n * COORD_LIMIT) <= sx <= n * COORD_LIMIT,
            -(n * COORD_LIMIT) <= sy <= n * COORD_LIMIT,
            best == reach_upto(s, k as int),
            0 <= best <= 2 * n * COORD_LIMIT,
        decreases s.len() - k,
    {
        assert(s[k as int].wf());
        proof {
            lemma_offset_bound(s, k as int, 0);
            lemma_offset_bound(s, k as int, 1);
        }
        let ox = offset_of(n, ps[k].x, sx);
        let oy = offset_of(n, ps[k].y, sy);
        let ax = if ox < 0 {
            -ox
        } else {
            ox
        };
        let ay = if oy < 0 {
            -oy
        } else {
            oy
        };
        let m = if ax < ay {
            ay
        } else {
            ax
        };
        if best < m {
            best = m;
        }
        k = k + 1;
    }
    let mut points: Vec<Point> = Vec::new();
    if n == 0 || best == 0 {
        let mut i: usize = 0;
        while i < ps.len()
            invariant
                i <= s.len(),
                s == ps@,
                !scalable(s),
                points@ =~= normalized_points(s).take(i as int),
            decreases s.len() - i,
        {
            let p = ps[i];
            points.push(Point { x: p.x as i128, y: p.y as i128, z: p.z as i128 });
            i = i + 1;
        }
        assert(points@ =~= normalized_points(s));
        return Normalized { points, den: 1_000_000 };
    }
    let mut i: usize = 0;
    while i < ps.len()
        invariant
            i <= s.len() < 0x1_0000_0000_0000_0000,
            s == ps@,
            all_wf(s),
            scalable(s),
            n == s.len(),
            sx == total(s, 0),
            sy == total(s, 1),
            sz == total(s, 2),
            -(n * COORD_LIMIT) <= sx <= n * COORD_LIMIT,
            -(n * COORD_LIMIT) <= sy <= n * COORD_LIMIT,
            -(n * COORD_LIMIT) <= sz <= n * COORD_LIMIT,
            points@ =~= normalized_points(s).take(i as int),
        decreases s.len() - i,
    {
        assert(s[i as int].wf());
        proof {
            lemma_offset_bound(s, i as int, 0);
            lemma_offset_bound(s, i as int, 1);
            lemma_offset_bound(s, i as int, 2);
        }
        let p = ps[i];
        let ox = offset_of(n, p.x, sx);
        let oy = offset_of(n, p.y, sy);
        let oz = offset_of(n, p.z, sz);
        points.push(Point { x: 9 * ox, y: 9 * oy, z: 9 * oz });
        i = i + 1;
    }
    assert(points@ =~= normalized_points(s));
    Normalized { points, den: 10 * best }
}

/// Each normalised coordinate is nine times the point's offset, exactly.
proof fn lemma_point_exact(ps: Seq<Vect3>, i: int)
    requires
        all_wf(ps),
        scalable(ps),
        ps.len() <= usize::MAX,
        0 <= i < ps.len(),
    ensures
        normalized_points(ps)[i].x as int == 9 * offset(ps, i, 0),
        normalized_points(ps)[i].y as int == 9 * offset(ps, i, 1),
        normalized_points(ps)[i].z as int == 9 * offset(ps, i, 2),
{
    lemma_offset_bound(ps, i, 0);
    lemma_offset_bound(ps, i, 1);
    lemma_offset_bound(ps, i, 2);
    assert(ps.len() <= 0xffff_ffff_ffff_ffff);
    assert(2 * ps.len() * COORD_LIMIT <= 2 * 0xffff_ffff_ffff_ffff * COORD_LIMIT);
}

proof fn lemma_ptotal_prefix(ps: Seq<Vect3>, k: int, axis: int)
    requires
        all_wf(ps),
        scalable(ps),
        ps.len() <= usize::MAX,
        0 <= k <= ps.len(),
        0 <= axis < 3,
    ensures
        ptotal(normalized_points(ps).take(k), axis) == 9 * (ps.len() * total(ps.take(k), axis) - k
            * total(ps, axis)),
    decreases k,
{
    let qs = normalized_points(ps);
    let n = ps.len() as int;
    let t = total(ps, axis);
    if k > 0 {
        lemma_ptotal_prefix(ps, k - 1, axis);
        assert(qs.take(k).drop_last() =~= qs.take(k - 1));
        assert(ps.take(k).drop_last() =~= ps.take(k - 1));
        lemma_point_exact(ps, k - 1);
        let tk = total(ps.take(k - 1), axis);
        let c = coord(ps[k - 1], axis);
        if axis == 0 {
            assert(pcoord(qs[k - 1], axis) == 9 * (n * c - t));
        } else if axis == 1 {
            assert(pcoord(qs[k - 1], axis) == 9 * (n * c - t));
        } else {
            assert(pcoord(qs[k - 1], axis) == 9 * (n * c - t));
        }
        assert(ptotal(qs.take(k), axis) == ptotal(qs.take(k - 1), axis) + pcoord(qs[k - 1], axis));
        assert(total(ps.take(k), axis) == tk + c);
        let prev = ptotal(qs.take(k - 1), axis);
        assert(prev == 9 * (n * tk - (k - 1) * t));
        assert(prev + 9 * (n * c - t) == 9 * (n * (tk + c) - k * t)) by (nonlinear_arith)
            requires
                prev == 9 * (n * tk - (k - 1) * t),
        ;
    } else {
        assert(qs.take(0) =~= Seq::<Point>::empty());
        assert(ps.take(0) =~= Seq::<Vect3>::empty());
        assert(9 * (n * 0 - 0 * t) == 0) by (nonlinear_arith);
    }
}

/// Centring: after normalisation the coordinates of all points sum to zero on
/// each axis, so their mean is exactly the origin.
pub proof fn centering_law(ps: Seq<Vect3>)
    requires
        all_wf(ps),
        scalable(ps),
        ps.len() <= usize::MAX,
    ensures
        forall|axis: int| 0 <= axis < 3 ==> #[trigger] ptotal(normalized_points(ps), axis) == 0,
{
    assert forall|axis: int| 0 <= axis < 3 implies #[trigger] ptotal(normalized_points(ps), axis)
        == 0 by {
        lemma_ptotal_prefix(ps, ps.len() as int, axis);
        assert(normalized_points(ps).take(ps.len() as int) =~= normalized_points(ps));
        assert(ps.take(ps.len() as int) =~= ps);
    }
}

proof fn lemma_reach_upto(ps: Seq<Vect3>, k: int)
    requires
        0 <= k,
    ensures
        reach_upto(ps, k) >= 0,
        forall|i: int| 0 <= i < k ==> planar(ps, i) <= reach_upto(ps, k),
        k > 0 ==> exists|i: int| 0 <= i < k && planar(ps, i) == reach_upto(ps, k),
    decreases k,
{
    if k > 0 {
        lemma_reach_upto(ps, k - 1);
        if reach_upto(ps, k - 1) > planar(ps, k - 1) {
            let i = choose|i: int| 0 <= i < k - 1 && planar(ps, i) == reach_upto(ps, k - 1);
            assert(0 <= i < k && planar(ps, i) == reach_upto(ps, k));
        } else {
            assert(planar(ps, k - 1) == reach_upto(ps, k));
        }
    }
}

/// The larger of `|x|` and `|y|` of `q`.
pub open spec fn planar_extent(q: Point) -> int {
    max(abs(q.x as int), abs(q.y as int))
}

/// Scaling: after normalisation the largest `max(|x|, |y|)` over all points is
/// exactly 0.9 (nine tenths of the denominator); z plays no part in it.
pub proof fn scaling_law(ps: Seq<Vect3>)
    requires
        all_wf(ps),
        scalable(ps),
        ps.len() <= usize::MAX,
    ensures
        forall|i: int|
            0 <= i < ps.len() ==> 10 * planar_extent(#[trigger] normalized_points(ps)[i]) <= 9
                * normalized_den(ps),
        exists|i: int|
            0 <= i < ps.len() && 10 * planar_extent(#[trigger] normalized_points(ps)[i]) == 9
                * normalized_den(ps),
{
    let qs = normalized_points(ps);
    lemma_reach_upto(ps, ps.len() as int);
    assert forall|i: int| 0 <= i < ps.len() implies 10 * planar_extent(#[trigger] qs[i]) <= 9
        * normalized_den(ps) by {
        lemma_point_exact(ps, i);
        assert(planar_extent(qs[i]) == 9 * planar(ps, i));
        assert(planar(ps, i) <= reach(ps));
    }
    let i = choose|i: int| 0 <= i < ps.len() && planar(ps, i) == reach(ps);
    lemma_point_exact(ps, i);
    assert(planar_extent(qs[i]) == 9 * planar(ps, i));
    assert(10 * planar_extent(qs[i]) == 9 * normalized_den(ps));
}


/// `ps` and `qs` hold the same points but for their z coordinates.
pub open spec fn same_xy(ps: Seq<Vect3>, qs: Seq<Vect3>) -> bool {
    ps.len() == qs.len() && forall|i: int|
        0 <= i < ps.len() ==> (#[trigger] ps[i]).x == qs[i].x && ps[i].y == qs[i].y
}

proof fn lemma_same_xy_totals(ps: Seq<Vect3>, qs: Seq<Vect3>)
    requires
        same_xy(ps, qs),
    ensures
        total(ps, 0) == total(qs, 0),
        total(ps, 1) == total(qs, 1),
    decreases ps.len(),
{
    if ps.len() > 0 {
        assert(same_xy(ps.drop_last(), qs.drop_last())) by {
            assert forall|i: int| 0 <= i < ps.len() - 1 implies (#[trigger] ps.drop_last()[i]).x
                == qs.drop_last()[i].x && ps.drop_last()[i].y == qs.drop_last()[i].y by {
                assert(ps[i].x == qs[i].x);
            }
        }
        lemma_same_xy_totals(ps.drop_last(), qs.drop_last());
        assert(ps[ps.len() - 1].x == qs[qs.len() - 1].x);
    }
}

proof fn lemma_same_xy_reach(ps: Seq<Vect3>, qs: Seq<Vect3>, k: int)
    requires
        same_xy(ps, qs),
        0 <= k <= ps.len(),
    ensures
        reach_upto(ps, k) == reach_upto(qs, k),
    decreases k,
{
    if k > 0 {
        lemma_same_xy_totals(ps, qs);
        lemma_same_xy_reach(ps, qs, k - 1);
        assert(ps[k - 1].x == qs[k - 1].x && ps[k - 1].y == qs[k - 1].y);
        assert(planar(ps, k - 1) == planar(qs, k - 1));
    }
}

/// The scale comes from x and y alone: point sets that differ only in z get
/// the same denominator and the same normalised x and y.
pub proof fn scale_ignores_z(ps: Seq<Vect3>, qs: Seq<Vect3>)
    requires
        same_xy(ps, qs),
        all_wf(ps),
        all_wf(qs),
        ps.len() <= usize::MAX,
    ensures
        normalized_den(ps) == normalized_den(qs),
        forall|i: int|
            0 <= i < ps.len() ==> (#[trigger] normalized_points(ps)[i]).x == normalized_points(
                qs,
            )[i].x && normalized_points(ps)[i].y == normalized_points(qs)[i].y,
{
    lemma_same_xy_totals(ps, qs);
    lemma_same_xy_reach(ps, qs, ps.len() as int);
    assert forall|i: int| 0 <= i < ps.len() implies (#[trigger] normalized_points(ps)[i]).x
        == normalized_points(qs)[i].x && normalized_points(ps)[i].y == normalized_points(qs)[i].y by {
        assert(ps[i].x == qs[i].x && ps[i].y == qs[i].y);
        if scalable(ps) {
            lemma_point_exact(ps, i);
            lemma_point_exact(qs, i);
        }
    }
}

} // verus!
