//! What attracts a point that is dragged, and where it then ends.
use vstd::prelude::*;

use crate::document::{Guide, GuideOrientation, PageView};
use crate::fixed::Fixed;
use crate::geometry::{Pos2, Rect, Vec2};
use crate::model::{LayerId, LayerView};
use crate::plane::near;
use crate::scalar::Scalar;
use crate::snapping::{
    axis_correction, best_correction, edge_xs, edge_ys, gap_between, guide_positions, nearest, reach,
    snap_xs, snap_ys, snapped, snapped_guide, snapped_move, snapped_point,
};

verus! {

/// How far apart two numbers are.
pub open spec fn apart(a: Fixed, b: Fixed) -> int {
    if a.raw <= b.raw {
        b.raw - a.raw
    } else {
        a.raw - b.raw
    }
}

/// What attracts a value is the nearest of the candidates, unless all are too far away.
pub proof fn law_the_nearest_attracts(
    value: Fixed,
    candidates: Seq<Fixed>,
    threshold: Fixed,
    i: int,
)
    requires
        near(value),
        forall|k: int| 0 <= k < candidates.len() ==> near(#[trigger] candidates[k]),
    ensures
        nearest(value, candidates, threshold) matches Some(c) ==> candidates.contains(c) && apart(
            c,
            value,
        ) <= threshold.raw && (0 <= i < candidates.len() ==> apart(c, value) <= apart(
            candidates[i],
            value,
        )),
        nearest(value, candidates, threshold) is None ==> (0 <= i < candidates.len() ==> apart(
            candidates[i],
            value,
        ) > threshold.raw),
    decreases candidates.len(),
{
    if candidates.len() > 0 {
        let t = candidates.drop_last();
        assert forall|k: int| 0 <= k < t.len() implies near(#[trigger] t[k]) by {
            assert(near(candidates[k]));
        }
        let n = candidates.len() - 1;
        assert(near(candidates[n]));
        law_the_nearest_attracts(value, t, threshold, i);
        if 0 <= i < n {
            assert(t[i] == candidates[i]);
        }
        match nearest(value, t, threshold) {
            Some(c) => {
                let k = choose|k: int| 0 <= k < t.len() && t[k] == c;
                assert(t[k] == candidates[k]);
                assert(near(candidates[k]));
            },
            None => {},
        }
        assert(candidates[n] == candidates.last());
    }
}

/// A number that is snapped is the nearest candidate where one is in reach, which is then shown; else
/// it stays, or goes to the nearest whole pixel.
pub proof fn law_snapped_values(
    value: Fixed,
    candidates: Seq<Fixed>,
    zoom: Fixed,
    pixel_snap: bool,
    i: int,
)
    requires
        near(value),
        forall|k: int| 0 <= k < candidates.len() ==> near(#[trigger] candidates[k]),
    ensures
        ({
            let (r, shown) = snapped(value, candidates, zoom, pixel_snap);
            &&& shown matches Some(c) ==> r == c && candidates.contains(c) && apart(c, value)
                <= reach(zoom).raw && (0 <= i < candidates.len() ==> apart(c, value) <= apart(
                candidates[i],
                value,
            ))
            &&& 0 <= i < candidates.len() && apart(candidates[i], value) <= reach(zoom).raw
                ==> shown is Some
            &&& shown is None && !pixel_snap ==> r == value
            &&& shown is None && pixel_snap ==> r.raw as int % 65536 == 0 && apart(r, value) <= 32768
        }),
        zoom.raw == 65536 ==> reach(zoom).raw == 6 * 65536,
        zoom.raw == 131072 ==> reach(zoom).raw == 3 * 65536,
{
    law_the_nearest_attracts(value, candidates, reach(zoom), i);
    assert(Fixed::spec_ratio(6, 1).raw == 393216);
    lemma_rounding(value);
}

/// The nearest whole number.
proof fn lemma_rounding(value: Fixed)
    requires
        near(value),
    ensures
        value.spec_rounded().raw as int % 65536 == 0,
        apart(value.spec_rounded(), value) <= 32768,
{
    let n = value.raw as int;
    if n < 0 {
        let q = (32768 - n) / 65536;
        assert(value.spec_rounded().raw == -(q * 65536));
        assert((-(q * 65536)) % 65536 == 0) by {
            assert(-(q * 65536) == (-q) * 65536);
            assert(((-q) * 65536) % 65536 == 0) by (nonlinear_arith);
        }
    } else {
        let q = (n + 32768) / 65536;
        assert(value.spec_rounded().raw == q * 65536);
        assert((q * 65536) % 65536 == 0) by (nonlinear_arith);
    }
}

/// A point snaps across to what attracts it across and down to what attracts it down; it stays where
/// snapping is off.
pub proof fn law_points_snap_on_each_axis<S: Scalar>(
    p: Pos2<S>,
    xs: Seq<S>,
    ys: Seq<S>,
    zoom: S,
    pixel_snap: bool,
)
    ensures
        snapped_point(p, xs, ys, zoom, false, pixel_snap).0 == p,
        ({
            let (q, gx, gy) = snapped_point(p, xs, ys, zoom, true, pixel_snap);
            &&& q.x == snapped(p.x, xs, zoom, pixel_snap).0
            &&& q.y == snapped(p.y, ys, zoom, pixel_snap).0
            &&& gx == snapped(p.x, xs, zoom, pixel_snap).1
            &&& gy == snapped(p.y, ys, zoom, pixel_snap).1
        }),
        snapped_guide(GuideOrientation::Horizontal, p, xs, ys, zoom, false, pixel_snap) == p.y,
        snapped_guide(GuideOrientation::Vertical, p, xs, ys, zoom, false, pixel_snap) == p.x,
        snapped_guide(GuideOrientation::Horizontal, p, xs, ys, zoom, true, pixel_snap) == snapped(
            p.y,
            ys,
            zoom,
            pixel_snap,
        ).0,
        snapped_guide(GuideOrientation::Vertical, p, xs, ys, zoom, true, pixel_snap) == snapped(
            p.x,
            xs,
            zoom,
            pixel_snap,
        ).0,
{
}

/// Every guide attracts on its own axis, and nothing else does so in its place.
pub proof fn law_guides_attract<S>(guides: Seq<Guide<S>>, o: GuideOrientation, i: int, k: int)
    ensures
        0 <= i < guides.len() && guides[i].orientation == o ==> guide_positions(
            guides,
            o,
        ).contains(guides[i].pos),
        0 <= k < guide_positions(guides, o).len() ==> exists|j: int|
            0 <= j < guides.len() && (#[trigger] guides[j]).orientation == o && guides[j].pos
                == guide_positions(guides, o)[k],
    decreases guides.len(),
{
    if guides.len() > 0 {
        let t = guides.drop_last();
        let n = guides.len() - 1;
        law_guides_attract(t, o, i, k);
        let rest = guide_positions(t, o);
        let all = guide_positions(guides, o);
        if 0 <= i < guides.len() && guides[i].orientation == o {
            if i < n {
                assert(t[i] == guides[i]);
                let j = choose|j: int| 0 <= j < rest.len() && rest[j] == guides[i].pos;
                assert(all[j] == guides[i].pos);
            } else {
                assert(all[all.len() - 1] == guides[i].pos);
            }
        }
        if 0 <= k < all.len() {
            if k < rest.len() {
                let j = choose|j: int|
                    0 <= j < t.len() && (#[trigger] t[j]).orientation == o && t[j].pos == rest[k];
                assert(guides[j] == t[j]);
            } else {
                assert(guides[n].pos == all[k]);
            }
        }
    }
}

/// The sides and the middle of every shown layer attract, unless it is left out; a hidden layer does
/// not.
pub proof fn law_layers_attract<S: Scalar>(
    s: Seq<LayerView<S>>,
    exclude: Seq<LayerId>,
    i: int,
    k: int,
)
    ensures
        ({
            let b = s[i].frame.spec_bounds();
            let xs = edge_xs(s, exclude);
            let ys = edge_ys(s, exclude);
            0 <= i < s.len() && s[i].visible && !exclude.contains(s[i].id) ==> xs.contains(b.min.x)
                && xs.contains(b.spec_center().x) && xs.contains(b.max.x) && ys.contains(b.min.y)
                && ys.contains(b.spec_center().y) && ys.contains(b.max.y)
        }),
        edge_xs(s, exclude).len() == edge_ys(s, exclude).len(),
        0 <= k < edge_xs(s, exclude).len() ==> exists|j: int|
            0 <= j < s.len() && (#[trigger] s[j]).visible && !exclude.contains(s[j].id) && ({
                let b = s[j].frame.spec_bounds();
                let x = edge_xs(s, exclude)[k];
                let y = edge_ys(s, exclude)[k];
                (x == b.min.x && y == b.min.y) || (x == b.spec_center().x && y == b.spec_center().y)
                    || (x == b.max.x && y == b.max.y)
            }),
    decreases s.len(),
{
    if s.len() > 0 {
        let t = s.drop_last();
        let n = s.len() - 1;
        law_layers_attract(t, exclude, i, k);
        let rx = edge_xs(t, exclude);
        let ry = edge_ys(t, exclude);
        let xs = edge_xs(s, exclude);
        let ys = edge_ys(s, exclude);
        let shown = s[n].visible && !exclude.contains(s[n].id);
        assert(s.last() == s[n]);
        let b = s[n].frame.spec_bounds();
        if shown {
            assert(xs[rx.len() as int] == b.min.x && xs[rx.len() as int + 1] == b.spec_center().x
                && xs[rx.len() as int + 2] == b.max.x);
            assert(ys[ry.len() as int] == b.min.y && ys[ry.len() as int + 1] == b.spec_center().y
                && ys[ry.len() as int + 2] == b.max.y);
        }
        if 0 <= i < n {
            assert(t[i] == s[i]);
            let c = s[i].frame.spec_bounds();
            assert forall|v: S| rx.contains(v) implies #[trigger] xs.contains(v) by {
                let j = choose|j: int| 0 <= j < rx.len() && rx[j] == v;
                assert(xs[j] == v);
            }
            assert forall|v: S| ry.contains(v) implies #[trigger] ys.contains(v) by {
                let j = choose|j: int| 0 <= j < ry.len() && ry[j] == v;
                assert(ys[j] == v);
            }
        }
        if 0 <= k < xs.len() {
            if k < rx.len() {
                let j = choose|j: int|
                    0 <= j < t.len() && (#[trigger] t[j]).visible && !exclude.contains(t[j].id)
                        && ({
                        let b = t[j].frame.spec_bounds();
                        let x = rx[k];
                        let y = ry[k];
                        (x == b.min.x && y == b.min.y) || (x == b.spec_center().x && y
                            == b.spec_center().y) || (x == b.max.x && y == b.max.y)
                    });
                assert(t[j] == s[j]);
                assert(xs[k] == rx[k] && ys[k] == ry[k]);
            } else {
                assert(s[n].visible);
            }
        }
    }
}

/// Across, upright guides and the layers attract; down, level guides and the layers do.
pub proof fn law_what_attracts<S: Scalar>(page: PageView<S>, exclude: Seq<LayerId>, v: S)
    ensures
        snap_xs(page, exclude).contains(v) <==> guide_positions(
            page.guides,
            GuideOrientation::Vertical,
        ).contains(v) || edge_xs(page.layers, exclude).contains(v),
        snap_ys(page, exclude).contains(v) <==> guide_positions(
            page.guides,
            GuideOrientation::Horizontal,
        ).contains(v) || edge_ys(page.layers, exclude).contains(v),
{
    lemma_sum_contains(
        guide_positions(page.guides, GuideOrientation::Vertical),
        edge_xs(page.layers, exclude),
        v,
    );
    lemma_sum_contains(
        guide_positions(page.guides, GuideOrientation::Horizontal),
        edge_ys(page.layers, exclude),
        v,
    );
}

proof fn lemma_sum_contains<A>(a: Seq<A>, b: Seq<A>, v: A)
    ensures
        (a + b).contains(v) <==> a.contains(v) || b.contains(v),
{
    let c = a + b;
    if a.contains(v) {
        let j = choose|j: int| 0 <= j < a.len() && a[j] == v;
        assert(c[j] == v);
    }
    if b.contains(v) {
        let j = choose|j: int| 0 <= j < b.len() && b[j] == v;
        assert(c[a.len() + j] == v);
    }
    if c.contains(v) {
        let j = choose|j: int| 0 <= j < c.len() && c[j] == v;
        if j < a.len() {
            assert(a[j] == v);
        } else {
            assert(b[j - a.len()] == v);
        }
    }
}

/// Of several values the one that is nearest to what attracts it says how far all are moved.
proof fn lemma_best(values: Seq<Fixed>, candidates: Seq<Fixed>, threshold: Fixed, i: int)
    ensures
        best_correction(values, candidates, threshold) matches Some((by, c)) ==> exists|j: int|
            0 <= j < values.len() && nearest(#[trigger] values[j], candidates, threshold) == Some(c)
                && by == c.spec_minus(values[j]),
        best_correction(values, candidates, threshold) is None ==> (0 <= i < values.len()
            ==> nearest(values[i], candidates, threshold) is None),
        best_correction(values, candidates, threshold) matches Some((by, c)) ==> (0 <= i
            < values.len() ==> (nearest(values[i], candidates, threshold) matches Some(d)
            ==> by.spec_magnitude().raw <= d.spec_minus(values[i]).spec_magnitude().raw)),
    decreases values.len(),
{
    if values.len() > 0 {
        let t = values.drop_last();
        let n = values.len() - 1;
        lemma_best(t, candidates, threshold, i);
        if 0 <= i < n {
            assert(t[i] == values[i]);
        }
        assert(values.last() == values[n]);
        match best_correction(t, candidates, threshold) {
            Some((by, c)) => {
                let j = choose|j: int|
                    0 <= j < t.len() && nearest(#[trigger] t[j], candidates, threshold) == Some(c)
                        && by == c.spec_minus(t[j]);
                assert(values[j] == t[j]);
            },
            None => {},
        }
    }
}

/// A box that is moved and snaps has a side or its middle on what is shown to attract it; where
/// nothing does it goes as far as it is moved, or its corner goes to a whole pixel.
pub proof fn law_moved_boxes_snap(
    bounds: Rect<Fixed>,
    delta: Vec2<Fixed>,
    xs: Seq<Fixed>,
    ys: Seq<Fixed>,
    zoom: Fixed,
    pixel_snap: bool,
)
    requires
        -0x800_0000 <= bounds.min.x.raw <= bounds.max.x.raw <= 0x800_0000,
        -0x800_0000 <= bounds.min.y.raw <= bounds.max.y.raw <= 0x800_0000,
        -0x800_0000 <= delta.x.raw <= 0x800_0000,
        -0x800_0000 <= delta.y.raw <= 0x800_0000,
        forall|k: int| 0 <= k < xs.len() ==> near(#[trigger] xs[k]),
        forall|k: int| 0 <= k < ys.len() ==> near(#[trigger] ys[k]),
    ensures
        snapped_move(bounds, delta, xs, ys, zoom, false, pixel_snap).0 == delta,
        ({
            let (d, gx, gy) = snapped_move(bounds, delta, xs, ys, zoom, true, pixel_snap);
            let left = bounds.min.x.spec_plus(d.x);
            let right = bounds.max.x.spec_plus(d.x);
            let top = bounds.min.y.spec_plus(d.y);
            let bottom = bounds.max.y.spec_plus(d.y);
            let two = Fixed::spec_ratio(2, 1);
            &&& gx matches Some(c) ==> xs.contains(c) && (left == c || right == c
                || left.spec_plus(right).spec_over(two) == c)
            &&& gy matches Some(c) ==> ys.contains(c) && (top == c || bottom == c
                || top.spec_plus(bottom).spec_over(two) == c)
            &&& gx is None && !pixel_snap ==> d.x == delta.x
            &&& gy is None && !pixel_snap ==> d.y == delta.y
            &&& gx is None && pixel_snap ==> left.raw as int % 65536 == 0 && apart(d.x, delta.x)
                <= 32768
            &&& gy is None && pixel_snap ==> top.raw as int % 65536 == 0 && apart(d.y, delta.y)
                <= 32768
        }),
{
    let (d, gx, gy) = snapped_move(bounds, delta, xs, ys, zoom, true, pixel_snap);
    lemma_axis(bounds.min.x, bounds.max.x, delta.x, xs, zoom, pixel_snap);
    lemma_axis(bounds.min.y, bounds.max.y, delta.y, ys, zoom, pixel_snap);
    lemma_both_axes(bounds, delta, xs, ys, zoom, pixel_snap);
    let m = bounds.spec_translate(delta);
    assert(m.max.x == bounds.max.x.spec_plus(delta.x));
    assert(m.max.y == bounds.max.y.spec_plus(delta.y));
}

/// A box is moved on each axis alone.
proof fn lemma_both_axes<S: Scalar>(
    bounds: Rect<S>,
    delta: Vec2<S>,
    xs: Seq<S>,
    ys: Seq<S>,
    zoom: S,
    pixel_snap: bool,
)
    ensures
        ({
            let (d, gx, gy) = snapped_move(bounds, delta, xs, ys, zoom, true, pixel_snap);
            let m = bounds.spec_translate(delta);
            let x = axis_correction(m.min.x, m.spec_center().x, m.max.x, xs, zoom, pixel_snap);
            let y = axis_correction(m.min.y, m.spec_center().y, m.max.y, ys, zoom, pixel_snap);
            &&& d.x == crate::snapping::corrected(delta.x, x.0) && gx == x.1
            &&& d.y == crate::snapping::corrected(delta.y, y.0) && gy == y.1
            &&& m.min.x == bounds.min.x.spec_plus(delta.x) && m.min.y == bounds.min.y.spec_plus(
                delta.y,
            )
        }),
{
}

/// One axis of a moved box.
#[verifier::spinoff_prover]
#[verifier::rlimit(80)]
proof fn lemma_axis(
    lo: Fixed,
    hi: Fixed,
    delta: Fixed,
    candidates: Seq<Fixed>,
    zoom: Fixed,
    pixel_snap: bool,
)
    requires
        -0x800_0000 <= lo.raw <= hi.raw <= 0x800_0000,
        -0x800_0000 <= delta.raw <= 0x800_0000,
        forall|k: int| 0 <= k < candidates.len() ==> near(#[trigger] candidates[k]),
    ensures
        ({
            let a = lo.spec_plus(delta);
            let b = hi.spec_plus(delta);
            let mid = a.spec_plus(b).spec_over(Fixed::spec_ratio(2, 1));
            let (by, shown) = axis_correction(a, mid, b, candidates, zoom, pixel_snap);
            let d = crate::snapping::corrected(delta, by);
            let p = lo.spec_plus(d);
            let q = hi.spec_plus(d);
            &&& shown matches Some(c) ==> candidates.contains(c) && (p == c || q == c
                || p.spec_plus(q).spec_over(Fixed::spec_ratio(2, 1)) == c)
            &&& shown is None && !pixel_snap ==> d == delta
            &&& shown is None && pixel_snap ==> p.raw as int % 65536 == 0 && apart(d, delta)
                <= 32768
        }),
{
    let a = lo.spec_plus(delta);
    let b = hi.spec_plus(delta);
    let two = Fixed::spec_ratio(2, 1);
    let mid = a.spec_plus(b).spec_over(two);
    assert(two.raw == 131072);
    let sum = a.raw + b.raw;
    assert((sum * 65536) / 131072 == sum / 2);
    assert(mid.raw == sum / 2);
    let values = seq![a, mid, b];
    let thr = reach(zoom);
    lemma_best(values, candidates, thr, 0);
    let (by, shown) = axis_correction(a, mid, b, candidates, zoom, pixel_snap);
    match best_correction(values, candidates, thr) {
        Some((corr, c)) => {
            let j = choose|j: int|
                0 <= j < values.len() && nearest(#[trigger] values[j], candidates, thr) == Some(c)
                    && corr == c.spec_minus(values[j]);
            law_the_nearest_attracts(values[j], candidates, thr, 0);
            assert(candidates.contains(c));
            let k = choose|k: int| 0 <= k < candidates.len() && candidates[k] == c;
            assert(near(candidates[k]));
            let d = delta.spec_plus(corr);
            assert(d.raw == delta.raw + c.raw - values[j].raw);
            let p = lo.spec_plus(d);
            let q = hi.spec_plus(d);
            assert(p.raw == lo.raw + d.raw && q.raw == hi.raw + d.raw);
            let s2 = p.raw + q.raw;
            assert((s2 * 65536) / 131072 == s2 / 2);
            assert(j == 0 || j == 1 || j == 2);
            if j == 0 {
                assert(p == c);
            } else if j == 2 {
                assert(q == c);
            } else {
                assert(s2 == sum + 2 * (c.raw - mid.raw));
                assert(p.spec_plus(q).raw == s2) by {
                    assert(-0x8000_0000 <= s2 <= 0x7fff_ffff);
                }
                assert(p.spec_plus(q).spec_over(two).raw == s2 / 2);
            }
        },
        None => {
            lemma_rounding(a);
        },
    }
}

/// The gap between two stretches: from the end of the one to the beginning of the other; none where
/// they overlap.
pub proof fn law_gaps_are_between(a_min: Fixed, a_max: Fixed, b_min: Fixed, b_max: Fixed)
    requires
        a_min.raw <= a_max.raw,
        b_min.raw <= b_max.raw,
    ensures
        gap_between(a_min, a_max, b_min, b_max) matches Some((p, q)) ==> p.raw <= q.raw && (p
            == a_max && q == b_min || p == b_max && q == a_min),
        gap_between(a_min, a_max, b_min, b_max) is None <==> a_min.raw < b_max.raw && b_min.raw
            < a_max.raw,
{
}

} // verus!
