//! Paths: which points their curves, corners and outlines pass.
use vstd::prelude::*;

use crate::fixed::Fixed;
use crate::geometry::{Pos2, Vec2};
use crate::model::{LayerView, PathPoint, PointType};
use crate::outlines::{
    any_rounded, path_outline, ring_outline, ring_steps, rings_traced, OutlineView, PathStep,
};
use crate::path_edit::{
    anchor_box, bezier_point, corner_inset, corner_point, curve_points, default_handle,
    flat_segment, flat_until, flattened, max_radius_one, next_index, normalized, or_zero,
    prev_index, retyped_one, roundable, segment_count, segment_distance, unpicked, with_radius,
    ScreenPathView, CORNER_SAMPLES,
};
use crate::plane::{lemma_times_one, near, near_box, near_point};
use crate::scalar::{first_least, Scalar};

verus! {

/// A curve begins at its first point and ends at its last; halfway it is at the mean of the four, the two
/// in the middle counted three times, but for rounding.
pub proof fn law_curves_reach_their_ends(
    p0: Pos2<Fixed>,
    p1: Pos2<Fixed>,
    p2: Pos2<Fixed>,
    p3: Pos2<Fixed>,
)
    requires
        near_point(p0) && near_point(p1) && near_point(p2) && near_point(p3),
    ensures
        bezier_point(p0, p1, p2, p3, (Fixed { raw: 0 })) == p0,
        bezier_point(p0, p1, p2, p3, (Fixed { raw: 65536 })) == p3,
        ({
            let m = bezier_point(p0, p1, p2, p3, (Fixed { raw: 32768 }));
            let x = p0.x.raw + 3 * p1.x.raw + 3 * p2.x.raw + p3.x.raw;
            let y = p0.y.raw + 3 * p1.y.raw + 3 * p2.y.raw + p3.y.raw;
            &&& 0 <= x - 8 * m.x.raw < 32
            &&& 0 <= y - 8 * m.y.raw < 32
        }),
{
    assert(Fixed::spec_ratio(1, 1) == Fixed { raw: 65536 });
    assert(Fixed::spec_ratio(3, 1) == Fixed { raw: 196608 });
    lemma_weights();
    lemma_weighed(p0.x);
    lemma_weighed(p1.x);
    lemma_weighed(p2.x);
    lemma_weighed(p3.x);
    lemma_weighed(p0.y);
    lemma_weighed(p1.y);
    lemma_weighed(p2.y);
    lemma_weighed(p3.y);
}

/// The weights of the points of a curve at its ends and halfway.
proof fn lemma_weights()
    ensures
        ({
            let zero = Fixed { raw: 0 };
            let one = Fixed { raw: 65536 };
            let half = Fixed { raw: 32768 };
            let three = Fixed { raw: 196608 };
            &&& one.spec_minus(zero) == one && one.spec_minus(one) == zero && one.spec_minus(half)
                == half
            &&& one.spec_times(one) == one && zero.spec_times(zero) == zero && one.spec_times(zero)
                == zero && zero.spec_times(one) == zero
            &&& three.spec_times(one) == three && three.spec_times(zero) == zero
            &&& half.spec_times(half).raw == 16384
            &&& half.spec_times(half).spec_times(half).raw == 8192
            &&& three.spec_times(half).raw == 98304
            &&& three.spec_times(half).spec_times(half).raw == 49152
            &&& three.spec_times(half).spec_times(half).spec_times(half).raw == 24576
        }),
{
    assert(32768int * 32768 / 65536 == 16384);
    assert(16384int * 32768 / 65536 == 8192);
    assert(196608int * 32768 / 65536 == 98304);
    assert(98304int * 32768 / 65536 == 49152);
    assert(49152int * 32768 / 65536 == 24576);
}

proof fn lemma_weighed(a: Fixed)
    requires
        near(a),
    ensures
        (Fixed { raw: 0 }).spec_times(a) == (Fixed { raw: 0 }),
        (Fixed { raw: 65536 }).spec_times(a) == a,
        0 <= a.raw - 8 * (Fixed { raw: 8192 }).spec_times(a).raw < 8,
        0 <= 3 * a.raw - 8 * (Fixed { raw: 24576 }).spec_times(a).raw < 8,
{
    let n = a.raw as int;
    assert(0 * n == 0);
    assert((65536 * n) / 65536 == n);
    assert((8192 * n) / 65536 == n / 8);
    assert((24576 * n) / 65536 == (3 * n) / 8);
}

/// A stretch of a path that is a curve ends at the point that it leads to, and is sampled as often as any
/// other.
pub proof fn law_curved_stretches_end_at_points(a: PathPoint<Fixed>, b: PathPoint<Fixed>)
    requires
        near_point(a.anchor) && near_point(b.anchor),
        near_point(a.anchor.spec_plus(or_zero(a.handle_out))),
        near_point(b.anchor.spec_plus(or_zero(b.handle_in))),
    ensures
        curve_points(a, b).len() == 16,
        curve_points(a, b).last() == b.anchor,
{
    law_curves_reach_their_ends(
        a.anchor,
        a.anchor.spec_plus(or_zero(a.handle_out)),
        b.anchor.spec_plus(or_zero(b.handle_in)),
        b.anchor,
    );
    assert(Fixed::spec_ratio(16, 16) == Fixed { raw: 65536 });
}

/// Whether a path is made of straight stretches with sharp corners.
pub open spec fn is_straight<S: Scalar>(points: Seq<PathPoint<S>>, closed: bool) -> bool {
    forall|i: int|
        0 <= i < points.len() ==> (#[trigger] points[i]).handle_in is None && points[i].handle_out
            is None && !roundable(points, closed, i)
}

/// A straight path passes its points, each once and in their order, whether it is closed or not.
pub proof fn law_straight_paths_pass_their_points<S: Scalar>(
    points: Seq<PathPoint<S>>,
    closed: bool,
)
    requires
        is_straight(points, closed),
    ensures
        flattened(points, closed).len() == points.len(),
        forall|i: int|
            0 <= i < points.len() ==> #[trigger] flattened(points, closed)[i] == points[i].anchor,
{
    if points.len() > 0 {
        let n = points.len() as int;
        lemma_straight_until(points, closed, (n - 1) as nat);
        if closed {
            let k = (n - 1) as nat;
            assert(points[n - 1].handle_out is None && points[0].handle_in is None);
            assert(flat_segment(points, closed, n - 1) =~= Seq::empty());
            assert(flat_until(points, closed, n as nat) =~= flat_until(points, closed, k));
        }
    }
}

#[verifier::spinoff_prover]
#[verifier::rlimit(60)]
proof fn lemma_straight_until<S: Scalar>(points: Seq<PathPoint<S>>, closed: bool, k: nat)
    requires
        is_straight(points, closed),
        k < points.len(),
    ensures
        flat_until(points, closed, k).len() == k + 1,
        forall|i: int|
            0 <= i <= k ==> #[trigger] flat_until(points, closed, k)[i] == points[i].anchor,
    decreases k,
{
    if k > 0 {
        let j = (k - 1) as nat;
        lemma_straight_until(points, closed, j);
        assert(points[j as int].handle_out is None && points[k as int].handle_in is None);
        let more = flat_segment(points, closed, j as int);
        assert(more =~= seq![points[k as int].anchor]);
        let before = flat_until(points, closed, j);
        assert(flat_until(points, closed, k) == before + more);
        assert forall|i: int| 0 <= i <= k implies #[trigger] flat_until(points, closed, k)[i]
            == points[i].anchor by {
            if i < k {
                assert((before + more)[i] == before[i]);
            } else {
                assert((before + more)[i] == more[0]);
            }
        }
    } else {
        assert(points[0].handle_in is None);
    }
}

/// The neighbours of a point on a closed path: the one after the one before it is the point itself.
pub proof fn law_neighbours_are_mutual(i: int, n: int)
    requires
        0 <= i < n,
    ensures
        0 <= next_index(i, n) < n,
        0 <= prev_index(i, n) < n,
        prev_index(next_index(i, n), n) == i,
        next_index(prev_index(i, n), n) == i,
        i + 1 < n ==> next_index(i, n) == i + 1,
        next_index(n - 1, n) == 0,
        segment_count(n, true) == n,
        segment_count(n, false) == n - 1,
{
}

/// A corner is rounded no farther than its radius, nor than halfway to either neighbour; its arc begins
/// toward the one and ends toward the other.
pub proof fn law_rounded_corners(
    corner: Pos2<Fixed>,
    before: Fixed,
    after: Fixed,
    radius: Fixed,
)
    requires
        -0x400_0000 <= corner.x.raw <= 0x400_0000,
        -0x400_0000 <= corner.y.raw <= 0x400_0000,
        0 < before.raw <= 0x400_0000,
        0 < after.raw <= 0x400_0000,
        0 <= radius.raw <= 0x400_0000,
    ensures
        ({
            let prev = Pos2 { x: corner.x.spec_minus(before), y: corner.y };
            let next = Pos2 { x: corner.x, y: corner.y.spec_plus(after) };
            let inset = corner_inset(prev, corner, next, radius).raw as int;
            &&& inset <= radius.raw && 2 * inset <= before.raw && 2 * inset <= after.raw
            &&& 2 * radius.raw <= before.raw && 2 * radius.raw <= after.raw ==> inset == radius.raw
            &&& corner_point(prev, corner, next, radius, 0).x.raw == corner.x.raw - inset
            &&& corner_point(prev, corner, next, radius, 0).y == corner.y
            &&& corner_point(prev, corner, next, radius, CORNER_SAMPLES as int).x == corner.x
            &&& corner_point(prev, corner, next, radius, CORNER_SAMPLES as int).y.raw
                == corner.y.raw + inset
        }),
{
    let prev = Pos2 { x: corner.x.spec_minus(before), y: corner.y };
    let next = Pos2 { x: corner.x, y: corner.y.spec_plus(after) };
    let zero = Fixed { raw: 0 };
    let one = Fixed { raw: 65536 };
    let m = before.raw as int;
    let n = after.raw as int;
    let back = prev.spec_from(corner);
    let ahead = next.spec_from(corner);
    assert(back.x.raw == -m && back.y.raw == 0);
    assert(ahead.x.raw == 0 && ahead.y.raw == n);
    assert(corner.spec_from(prev).x.raw == m && corner.spec_from(prev).y.raw == 0);
    assert(corner.spec_from(next).x.raw == 0 && corner.spec_from(next).y.raw == -n);
    assert((-m) * (-m) == m * m && (-n) * (-n) == n * n) by (nonlinear_arith);
    assert(0 * 0 == 0);
    crate::fixed::lemma_whole_root(m * m, m);
    crate::fixed::lemma_whole_root(n * n, n);
    assert(corner.spec_distance(prev).raw == m && corner.spec_distance(next).raw == n);
    crate::gripping::lemma_half_of(before);
    crate::gripping::lemma_half_of(after);
    let inset = corner_inset(prev, corner, next, radius);
    assert(back.spec_length().raw == m && ahead.spec_length().raw == n);
    assert((-m * 65536) / m == -65536) by (nonlinear_arith)
        requires
            m > 0,
    ;
    assert((n * 65536) / n == 65536) by (nonlinear_arith)
        requires
            n > 0,
    ;
    assert(0int / m == 0 && 0int / n == 0) by (nonlinear_arith)
        requires
            m > 0,
            n > 0,
    ;
    let ub = back.spec_unit();
    let ua = ahead.spec_unit();
    assert(ub.x.raw == -65536 && ub.y.raw == 0);
    assert(ua.x.raw == 0 && ua.y.raw == 65536);
    let k = inset.raw as int;
    assert((-65536 * k) / 65536 == -k);
    assert((65536 * k) / 65536 == k);
    assert(0 * k == 0);
    let start = corner.spec_plus(ub.spec_scaled(inset));
    let end = corner.spec_plus(ua.spec_scaled(inset));
    assert(start.x.raw == corner.x.raw - k && start.y == corner.y);
    assert(end.x == corner.x && end.y.raw == corner.y.raw + k);
    assert(Fixed::spec_ratio(1, 1) == one);
    assert(Fixed::spec_ratio(0, 8) == zero);
    assert(Fixed::spec_ratio(8, 8) == one);
    assert(Fixed::spec_ratio(2, 1) == Fixed { raw: 131072 });
    lemma_weights();
    assert((Fixed { raw: 131072 }).spec_times(one) == Fixed { raw: 131072 });
    assert((Fixed { raw: 131072 }).spec_times(zero) == zero);
    lemma_weighed(start.x);
    lemma_weighed(start.y);
    lemma_weighed(end.x);
    lemma_weighed(end.y);
    lemma_weighed(corner.x);
    lemma_weighed(corner.y);
}

/// A point on an end of a stretch is no way from it; where a stretch has no length, it is as far as its
/// one point.
pub proof fn law_ends_are_on_their_stretch(a: Pos2<Fixed>, b: Pos2<Fixed>, p: Pos2<Fixed>)
    requires
        near_point(a) && near_point(b) && near_point(p),
    ensures
        segment_distance(a, a, b).raw == 0,
        segment_distance(p, a, a) == p.spec_distance(a),
{
    let zero = Fixed { raw: 0 };
    let d = a.spec_from(a);
    assert(d.x.raw == 0 && d.y.raw == 0);
    let ab = b.spec_from(a);
    assert(0 * 0 == 0);
    crate::fixed::lemma_whole_root(0, 0);
    assert(0 * ab.x.raw == 0 && 0 * ab.y.raw == 0);
    assert(d.spec_dot(ab).raw == 0);
    assert(d.spec_dot(d).raw == 0);
    assert(a.spec_distance(a).raw == 0);
    let len2 = ab.spec_dot(ab);
    assert(Fixed::spec_ratio(1, 1000000).raw == 0);
    if len2.raw > 0 {
        assert(0int / (len2.raw as int) == 0) by (nonlinear_arith)
            requires
                len2.raw > 0,
        ;
    }
    assert(ab.x.raw * 0 == 0 && ab.y.raw * 0 == 0);
    if !len2.spec_lt(Fixed::spec_ratio(1, 1000000)) {
        let t = crate::scalar::spec_clamped(
            d.spec_dot(ab).spec_over(len2),
            Fixed::spec_ratio(0, 1),
            Fixed::spec_ratio(1, 1),
        );
        assert(Fixed::spec_ratio(0, 1).raw == 0 && Fixed::spec_ratio(1, 1).raw == 65536);
        assert(d.spec_dot(ab).spec_over(len2).raw == 0);
        assert(t.raw == 0);
        assert(a.spec_plus(ab.spec_scaled(t)) == a);
    }
    if !d.spec_dot(d).spec_lt(Fixed::spec_ratio(1, 1000000)) {
        let t = crate::scalar::spec_clamped(
            p.spec_from(a).spec_dot(d).spec_over(d.spec_dot(d)),
            Fixed::spec_ratio(0, 1),
            Fixed::spec_ratio(1, 1),
        );
        assert(0 * t.raw == 0);
        assert(a.spec_plus(d.spec_scaled(t)) == a);
    }
}

/// The first of the least of some values: none is less, and all before it are more.
pub proof fn law_the_first_of_the_least(values: Seq<Fixed>, i: int)
    requires
        0 <= i < values.len(),
    ensures
        0 <= first_least(values) < values.len(),
        values[first_least(values)].raw <= values[i].raw,
        i < first_least(values) ==> values[first_least(values)].raw < values[i].raw,
    decreases values.len(),
{
    if values.len() > 1 {
        let t = values.drop_last();
        let n = values.len() - 1;
        law_the_first_of_the_least(t, 0);
        let b = first_least(t);
        assert(t[b] == values[b]);
        if i < n {
            law_the_first_of_the_least(t, i);
            assert(t[i] == values[i]);
        }
    }
}

/// The anchor that is taken is the one that is shown nearest to the pointer.
pub proof fn law_the_nearest_anchor_is_taken(path: ScreenPathView<Fixed>, click: Pos2<Fixed>, i: int)
    requires
        0 <= i < path.points.len(),
    ensures
        path.nearest_anchor(click) matches Some((k, d)) && 0 <= k < path.points.len() && d
            == click.spec_distance(path.anchor(k)) && d.raw <= click.spec_distance(
            path.anchor(i),
        ).raw,
{
    let d = path.anchor_distances(click);
    law_the_first_of_the_least(d, i);
}

/// The stretch that is taken is the one nearest to the pointer, unless all are more than sixteen pixels
/// away.
pub proof fn law_the_nearest_stretch_is_taken(
    path: ScreenPathView<Fixed>,
    click: Pos2<Fixed>,
    i: int,
)
    requires
        0 <= i < segment_count(path.points.len() as int, path.closed),
        path.points.len() > 0,
    ensures
        ({
            let n = path.points.len() as int;
            let far = segment_distance(click, path.anchor(i), path.anchor(next_index(i, n)));
            &&& path.nearest_segment(click) matches Some(k) ==> 0 <= k < segment_count(
                n,
                path.closed,
            ) && segment_distance(click, path.anchor(k), path.anchor(next_index(k, n))).raw
                <= far.raw && segment_distance(
                click,
                path.anchor(k),
                path.anchor(next_index(k, n)),
            ).raw <= 16 * 65536
            &&& path.nearest_segment(click) is None ==> far.raw > 16 * 65536
        }),
{
    let d = path.segment_distances(click);
    law_the_first_of_the_least(d, i);
    assert(Fixed::spec_ratio(8, 1).raw == 524288 && Fixed::spec_ratio(2, 1).raw == 131072);
    assert((Fixed { raw: 524288 }).spec_times(Fixed { raw: 131072 }).raw == 1048576) by {
        assert(524288int * 131072 / 65536 == 1048576);
    }
}

/// A point that is made straight has no handles; one that is mirrored has two that are opposite. It stays
/// where it is, and so do all others as they are.
pub proof fn law_retyped_points(
    points: Seq<PathPoint<Fixed>>,
    closed: bool,
    i: int,
    t: PointType,
    j: int,
)
    requires
        0 <= i < points.len(),
        0 <= j < points.len(),
        points[i].handle_out matches Some(h) ==> near(h.x) && near(h.y),
        points[i].handle_in matches Some(h) ==> near(h.x) && near(h.y),
    ensures
        ({
            let q = retyped_one(points, closed, i, t);
            &&& q.len() == points.len()
            &&& j != i ==> q[j] == points[j]
            &&& q[i].anchor == points[i].anchor && q[i].corner_radius == points[i].corner_radius
            &&& q[i].point_type == t
            &&& t == PointType::Straight ==> q[i].handle_in is None && q[i].handle_out is None
            &&& t == PointType::Mirror ==> (points[i].handle_out matches Some(h) ==> q[i].handle_out
                == Some(h) && (q[i].handle_in matches Some(g) && g.x.raw == -h.x.raw && g.y.raw
                == -h.y.raw))
            &&& t == PointType::Mirror && points[i].handle_out is None ==> (
            points[i].handle_in matches Some(h) ==> q[i].handle_in == Some(h) && (
            q[i].handle_out matches Some(g) && g.x.raw == -h.x.raw && g.y.raw == -h.y.raw))
            &&& t == PointType::Disconnected || t == PointType::Asymmetric ==> q[i].handle_in
                == points[i].handle_in && q[i].handle_out == points[i].handle_out
        }),
{
}

/// The handle that a corner between two neighbours gets points from the one to the other, along the line
/// between them; it is a third of the way and a little, but four at least and forty at most.
pub proof fn law_new_handles_point_onward(points: Seq<PathPoint<Fixed>>, i: int, d: Fixed)
    requires
        0 < i < points.len() - 1,
        near_point(points[i].anchor),
        65536 <= d.raw <= 0x1000_0000,
        points[i - 1].anchor.x.raw == points[i].anchor.x.raw - d.raw,
        points[i - 1].anchor.y == points[i].anchor.y,
        points[i + 1].anchor.x.raw == points[i].anchor.x.raw + d.raw,
        points[i + 1].anchor.y == points[i].anchor.y,
    ensures
        default_handle(points, i, false) matches Some(h) && h.y.raw == 0 && 4 * 65536 <= h.x.raw <= 40
            * 65536 && (20 * 65536 <= d.raw <= 100 * 65536 ==> h.x.raw == (d.raw * 22937) / 65536),
{
    let m = d.raw as int;
    let here = points[i].anchor;
    let p = points[i - 1];
    let q = points[i + 1];
    let dir = q.anchor.spec_from(p.anchor);
    assert(dir.x.raw == 2 * m && dir.y.raw == 0);
    let b = p.anchor.spec_from(here);
    let a = q.anchor.spec_from(here);
    assert(b.x.raw == -m && b.y.raw == 0 && a.x.raw == m && a.y.raw == 0);
    assert((-m) * (-m) == m * m) by (nonlinear_arith);
    assert(0 * 0 == 0);
    crate::fixed::lemma_whole_root(m * m, m);
    crate::fixed::lemma_whole_root((2 * m) * (2 * m), 2 * m);
    assert(dir.spec_length().raw == 2 * m && b.spec_length().raw == m && a.spec_length().raw == m);
    assert(((2 * m) * 65536) / (2 * m) == 65536 && 0int / (2 * m) == 0) by (nonlinear_arith)
        requires
            m > 0,
    ;
    let u = dir.spec_unit();
    assert(u.x.raw == 65536 && u.y.raw == 0);
    assert(Fixed::spec_ratio(35, 100).raw == 22937);
    assert(Fixed::spec_ratio(4, 1).raw == 4 * 65536 && Fixed::spec_ratio(40, 1).raw == 40 * 65536);
    assert(Fixed::spec_ratio(1, 1000).raw == 65);
    let reach = b.spec_length().spec_lesser(a.spec_length());
    assert(reach.raw == m);
    assert(reach.spec_times(Fixed::spec_ratio(35, 100)).raw == (m * 22937) / 65536);
    let len = crate::scalar::spec_clamped(
        reach.spec_times(Fixed::spec_ratio(35, 100)),
        Fixed::spec_ratio(4, 1),
        Fixed::spec_ratio(40, 1),
    );
    lemma_times_one(len);
    assert(0 * len.raw == 0);
}

/// The greatest radius of a corner is half of the shorter of the two stretches that meet at it.
pub proof fn law_the_greatest_radius(points: Seq<PathPoint<Fixed>>, i: int, j: int)
    requires
        0 < i < points.len() - 1,
        0 <= j < points.len(),
    ensures
        ({
            let q = max_radius_one(points, false, i);
            let a = points[i - 1].anchor.spec_distance(points[i].anchor).raw as int;
            let b = points[i + 1].anchor.spec_distance(points[i].anchor).raw as int;
            &&& q.len() == points.len()
            &&& j != i ==> q[j] == points[j]
            &&& q[i] == (PathPoint { corner_radius: q[i].corner_radius, ..points[i] })
            &&& q[i].corner_radius.raw == (if a <= b {
                a
            } else {
                b
            }) / 2
        }),
{
    let a = points[i - 1].anchor.spec_distance(points[i].anchor);
    let b = points[i + 1].anchor.spec_distance(points[i].anchor);
    crate::gripping::lemma_half_of(a);
    crate::gripping::lemma_half_of(b);
}

/// Setting a radius sets that of the picked points and no other.
pub proof fn law_radii_of_picked_points<S>(
    points: Seq<PathPoint<S>>,
    indices: Seq<usize>,
    radius: S,
    i: int,
)
    requires
        0 <= i < points.len() <= usize::MAX,
    ensures
        with_radius(points, indices, radius).len() == points.len(),
        indices.contains(i as usize) ==> with_radius(points, indices, radius)[i] == (PathPoint {
            corner_radius: radius,
            ..points[i]
        }),
        !indices.contains(i as usize) ==> with_radius(points, indices, radius)[i] == points[i],
{
}

/// Taking out the picked points keeps every other, and none that is picked where no two are alike.
pub proof fn law_unpicked_points_stay<S>(
    points: Seq<PathPoint<S>>,
    indices: Seq<usize>,
    k: nat,
    i: int,
)
    requires
        k <= points.len() <= usize::MAX,
        0 <= i < k,
    ensures
        unpicked(points, indices, k).len() <= k,
        !indices.contains(i as usize) ==> unpicked(points, indices, k).contains(points[i]),
        indices.contains(i as usize) ==> unpicked(points, indices, k).len() < k,
        indices.len() == 0 ==> unpicked(points, indices, k).len() == k,
    decreases k,
{
    let j = (k - 1) as nat;
    let all = unpicked(points, indices, k);
    let rest = unpicked(points, indices, j);
    if j > 0 {
        law_unpicked_points_stay(points, indices, j, if i < j {
            i
        } else {
            0
        });
    } else {
        assert(rest.len() == 0);
    }
    if i < j {
        if !indices.contains(i as usize) {
            let m = choose|m: int| 0 <= m < rest.len() && rest[m] == points[i];
            assert(all[m] == points[i]);
        }
    } else if !indices.contains(i as usize) {
        assert(all[rest.len() as int] == points[i]);
    }
}

/// The box of a path holds all its points and touches one on each side.
pub proof fn law_the_box_of_a_path_is_tight(points: Seq<PathPoint<Fixed>>, base: Pos2<Fixed>, i: int)
    requires
        0 <= i < points.len(),
    ensures
        ({
            let b = anchor_box(points, base);
            let p = base.spec_plus(points[i].anchor.spec_to_vec2());
            &&& b.min.x.raw <= p.x.raw <= b.max.x.raw
            &&& b.min.y.raw <= p.y.raw <= b.max.y.raw
            &&& exists|j: int|
                0 <= j < points.len() && base.spec_plus(
                    (#[trigger] points[j]).anchor.spec_to_vec2(),
                ).x == b.min.x
            &&& exists|j: int|
                0 <= j < points.len() && base.spec_plus(
                    (#[trigger] points[j]).anchor.spec_to_vec2(),
                ).y == b.min.y
            &&& exists|j: int|
                0 <= j < points.len() && base.spec_plus(
                    (#[trigger] points[j]).anchor.spec_to_vec2(),
                ).x == b.max.x
            &&& exists|j: int|
                0 <= j < points.len() && base.spec_plus(
                    (#[trigger] points[j]).anchor.spec_to_vec2(),
                ).y == b.max.y
        }),
    decreases points.len(),
{
    let n = points.len() - 1;
    let t = points.drop_last();
    assert(points.last() == points[n]);
    if n == 0 {
        assert(i == 0);
    } else {
        law_the_box_of_a_path_is_tight(t, base, if i < n {
            i
        } else {
            0
        });
        if i < n {
            assert(t[i] == points[i]);
        }
        let r = anchor_box(t, base);
        let a = choose|j: int|
            0 <= j < t.len() && base.spec_plus((#[trigger] t[j]).anchor.spec_to_vec2()).x == r.min.x;
        let b = choose|j: int|
            0 <= j < t.len() && base.spec_plus((#[trigger] t[j]).anchor.spec_to_vec2()).y == r.min.y;
        let c = choose|j: int|
            0 <= j < t.len() && base.spec_plus((#[trigger] t[j]).anchor.spec_to_vec2()).x == r.max.x;
        let d = choose|j: int|
            0 <= j < t.len() && base.spec_plus((#[trigger] t[j]).anchor.spec_to_vec2()).y == r.max.y;
        assert(points[a] == t[a] && points[b] == t[b] && points[c] == t[c] && points[d] == t[d]);
    }
}

/// A path that is fitted has the box of its points for its frame.
pub proof fn law_fitted_paths_have_their_box(v: LayerView<Fixed>)
    requires
        v.kind is Path,
        v.kind->Path_points.len() > 0,
        near_box(anchor_box(v.kind->Path_points, v.frame.pos)),
    ensures
        ({
            let b = anchor_box(v.kind->Path_points, v.frame.pos);
            let w = normalized(v);
            &&& w.frame.pos == b.min && w.frame.spec_end() == b.max
            &&& w.frame.rotation == v.frame.rotation && w.style == v.style && w.id == v.id
        }),
{
}

/// The outline of a path begins at its first point and goes from each to the next, straight where neither
/// has a handle between them and by their handles otherwise; a closed one is closed at the end.
pub proof fn law_outlines_go_from_point_to_point<S: Scalar>(
    points: Seq<PathPoint<S>>,
    closed: bool,
    offset: Vec2<S>,
    i: int,
)
    requires
        points.len() >= 2,
        !any_rounded(points),
        0 <= i < points.len() - 1,
    ensures
        path_outline(points, closed, offset) matches Some(OutlineView::Steps(steps)) && steps[0]
            == PathStep::MoveTo(points[0].anchor.spec_plus(offset)) && steps.len() == (if closed {
            points.len() + 2
        } else {
            points.len()
        }) && (closed ==> steps.last() == PathStep::<S>::Close) && ({
            let a = points[i];
            let b = points[i + 1];
            let to = b.anchor.spec_plus(offset);
            if a.handle_out is None && b.handle_in is None {
                steps[i + 1] == PathStep::LineTo(to)
            } else {
                steps[i + 1] matches PathStep::CubicTo { first, second, to: end } && end == to && (
                a.handle_out matches Some(h) ==> first == a.anchor.spec_plus(offset).spec_plus(h))
                    && (b.handle_in matches Some(h) ==> second == to.spec_plus(h))
            }
        }),
        path_outline(Seq::<PathPoint<S>>::empty(), closed, offset) is None,
{
}

/// A ring is drawn from its first point through all the others and closed; with fewer than three points
/// it is none.
pub proof fn law_rings_are_drawn_round<S: Scalar>(
    points: Seq<Pos2<S>>,
    offset: Vec2<S>,
    i: int,
)
    requires
        0 < i < points.len(),
    ensures
        ring_steps(points, offset).len() == points.len() + 1,
        ring_steps(points, offset)[0] == PathStep::MoveTo(points[0].spec_plus(offset)),
        ring_steps(points, offset)[i] == PathStep::LineTo(points[i].spec_plus(offset)),
        ring_steps(points, offset).last() == PathStep::<S>::Close,
        points.len() < 3 ==> ring_outline(points) is None && rings_traced(
            seq![points],
            offset,
            1,
        ).len() == 0,
        points.len() >= 3 ==> (ring_outline(points) matches Some(OutlineView::Steps(steps))
            && steps.len() == points.len() + 1 && steps[0] == PathStep::MoveTo(points[0])
            && steps[i] == PathStep::LineTo(points[i]) && steps.last() == PathStep::<S>::Close),
        points.len() >= 3 ==> rings_traced(seq![points], offset, 1) == ring_steps(points, offset),
{
    assert(rings_traced(seq![points], offset, 0).len() == 0);
    assert(seq![points][0] == points);
    if points.len() >= 3 {
        assert(rings_traced(seq![points], offset, 1) =~= ring_steps(points, offset));
    }
}

} // verus!
