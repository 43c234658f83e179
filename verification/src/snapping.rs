//! Snapping to guides, to other layers and to whole pixels.
use vstd::prelude::*;

use crate::document::{Guide, GuideOrientation, Page};
use crate::geometry::{Pos2, Rect, Vec2};
use crate::grouping::has_id;
use crate::model::{group_views, views, LayerId, LayerView};
use crate::scalar::Scalar;

verus! {

broadcast use group_views;

/// What a drag can snap to: positions along each axis.
#[derive(Debug, PartialEq)]
pub struct SnapCandidates<S> {
    pub xs: Vec<S>,
    pub ys: Vec<S>,
}

/// The positions of the guides with one orientation.
pub open spec fn guide_positions<S>(guides: Seq<Guide<S>>, orientation: GuideOrientation) -> Seq<S>
    decreases guides.len(),
{
    if guides.len() == 0 {
        Seq::empty()
    } else {
        let rest = guide_positions(guides.drop_last(), orientation);
        if guides.last().orientation == orientation {
            rest.push(guides.last().pos)
        } else {
            rest
        }
    }
}

/// The left, middle and right of each layer of a list that is shown and not left out.
pub open spec fn edge_xs<S: Scalar>(s: Seq<LayerView<S>>, exclude: Seq<LayerId>) -> Seq<S>
    decreases s.len(),
{
    if s.len() == 0 {
        Seq::empty()
    } else {
        let rest = edge_xs(s.drop_last(), exclude);
        let b = s.last().frame.spec_bounds();
        if !s.last().visible || exclude.contains(s.last().id) {
            rest
        } else {
            rest + seq![b.min.x, b.spec_center().x, b.max.x]
        }
    }
}

/// The top, middle and bottom of each layer of a list that is shown and not left out.
pub open spec fn edge_ys<S: Scalar>(s: Seq<LayerView<S>>, exclude: Seq<LayerId>) -> Seq<S>
    decreases s.len(),
{
    if s.len() == 0 {
        Seq::empty()
    } else {
        let rest = edge_ys(s.drop_last(), exclude);
        let b = s.last().frame.spec_bounds();
        if !s.last().visible || exclude.contains(s.last().id) {
            rest
        } else {
            rest + seq![b.min.y, b.spec_center().y, b.max.y]
        }
    }
}

/// The positions of the guides with one orientation.
fn guides_along<S: Scalar>(guides: &Vec<Guide<S>>, orientation: GuideOrientation) -> (r: Vec<S>)
    ensures
        r@ == guide_positions(guides@, orientation),
{
    let mut r: Vec<S> = Vec::new();
    let mut i: usize = 0;
    assert(guides@.take(0) =~= Seq::empty());
    while i < guides.len()
        invariant
            i <= guides.len(),
            r@ == guide_positions(guides@.take(i as int), orientation),
        decreases guides.len() - i,
    {
        assert(guides@.take(i + 1).drop_last() =~= guides@.take(i as int));
        if guides[i].orientation == orientation {
            r.push(guides[i].pos);
        }
        i += 1;
    }
    assert(guides@.take(i as int) =~= guides@);
    r
}

/// The `x` positions that a drag of the layers in `exclude` can snap to.
pub open spec fn snap_xs<S: Scalar>(
    page: crate::document::PageView<S>,
    exclude: Seq<LayerId>,
) -> Seq<S> {
    guide_positions(page.guides, GuideOrientation::Vertical) + edge_xs(page.layers, exclude)
}

/// The `y` positions that a drag of the layers in `exclude` can snap to.
pub open spec fn snap_ys<S: Scalar>(
    page: crate::document::PageView<S>,
    exclude: Seq<LayerId>,
) -> Seq<S> {
    guide_positions(page.guides, GuideOrientation::Horizontal) + edge_ys(page.layers, exclude)
}

/// What a drag of the layers in `exclude` can snap to: the guides, and the edges and middles of
/// the other layers of the page itself.
pub fn build_snap_candidates<S: Scalar>(page: &Page<S>, exclude: &[LayerId]) -> (r: SnapCandidates<
    S,
>)
    ensures
        r.xs@ == snap_xs(page@, exclude@),
        r.ys@ == snap_ys(page@, exclude@),
{
    let ghost s = page@.layers;
    let mut xs = guides_along(&page.guides, GuideOrientation::Vertical);
    let mut ys = guides_along(&page.guides, GuideOrientation::Horizontal);
    let ghost gx = xs@;
    let ghost gy = ys@;
    let mut i: usize = 0;
    assert(s.take(0) =~= Seq::empty());
    assert(xs@ =~= gx + edge_xs(s.take(0), exclude@));
    assert(ys@ =~= gy + edge_ys(s.take(0), exclude@));
    while i < page.layers.len()
        invariant
            i <= page.layers.len(),
            s == views(page.layers@),
            xs@ == gx + edge_xs(s.take(i as int), exclude@),
            ys@ == gy + edge_ys(s.take(i as int), exclude@),
        decreases page.layers.len() - i,
    {
        let layer = &page.layers[i];
        assert(s.take(i + 1).drop_last() =~= s.take(i as int));
        assert(s.take(i + 1).last() == layer@);
        if layer.visible && !has_id(exclude, layer.id) {
            let b = layer.frame.bounds();
            let c = b.center();
            xs.push(b.min.x);
            xs.push(c.x);
            xs.push(b.max.x);
            ys.push(b.min.y);
            ys.push(c.y);
            ys.push(b.max.y);
        }
        i += 1;
        assert(xs@ =~= gx + edge_xs(s.take(i as int), exclude@));
        assert(ys@ =~= gy + edge_ys(s.take(i as int), exclude@));
    }
    assert(s.take(i as int) =~= s);
    SnapCandidates { xs, ys }
}

/// The first nearest of the candidates within `threshold` of `value`.
pub open spec fn nearest<S: Scalar>(value: S, candidates: Seq<S>, threshold: S) -> Option<S>
    decreases candidates.len(),
{
    if candidates.len() == 0 {
        None
    } else {
        let c = candidates.last();
        let d = c.spec_minus(value).spec_magnitude();
        let rest = nearest(value, candidates.drop_last(), threshold);
        if !d.spec_le(threshold) {
            rest
        } else {
            match rest {
                Some(best) => if d.spec_lt(best.spec_minus(value).spec_magnitude()) {
                    Some(c)
                } else {
                    rest
                },
                None => Some(c),
            }
        }
    }
}

/// The first nearest of the candidates within `threshold` of `value`.
pub fn snap_value<S: Scalar>(value: S, candidates: &Vec<S>, threshold: S) -> (r: Option<S>)
    ensures
        r == nearest(value, candidates@, threshold),
{
    let mut r: Option<S> = None;
    let mut i: usize = 0;
    assert(candidates@.take(0) =~= Seq::empty());
    while i < candidates.len()
        invariant
            i <= candidates.len(),
            r == nearest(value, candidates@.take(i as int), threshold),
        decreases candidates.len() - i,
    {
        assert(candidates@.take(i + 1).drop_last() =~= candidates@.take(i as int));
        let c = candidates[i];
        let d = c.minus(value).magnitude();
        if d.is_le(threshold) {
            match r {
                Some(best) => {
                    if d.is_lt(best.minus(value).magnitude()) {
                        r = Some(c);
                    }
                },
                None => {
                    r = Some(c);
                },
            }
        }
        i += 1;
    }
    assert(candidates@.take(i as int) =~= candidates@);
    r
}

/// A snapped value is a candidate, and within the threshold.
pub proof fn law_snapping_stays_within_the_threshold<S: Scalar>(
    value: S,
    candidates: Seq<S>,
    threshold: S,
)
    ensures
        nearest(value, candidates, threshold) matches Some(c) ==> candidates.contains(c)
            && c.spec_minus(value).spec_magnitude().spec_le(threshold),
        nearest(value, candidates, threshold) is None ==> forall|i: int|
            0 <= i < candidates.len() ==> !(#[trigger] candidates[i]).spec_minus(
                value,
            ).spec_magnitude().spec_le(threshold),
    decreases candidates.len(),
{
    if candidates.len() > 0 {
        let front = candidates.drop_last();
        law_snapping_stays_within_the_threshold(value, front, threshold);
        if let Some(c) = nearest(value, front, threshold) {
            let k = choose|k: int| 0 <= k < front.len() && front[k] == c;
            assert(candidates[k] == c);
        }
        assert(candidates[candidates.len() - 1] == candidates.last());
        if nearest(value, candidates, threshold) is None {
            assert forall|i: int| 0 <= i < candidates.len() implies !(
            #[trigger] candidates[i]).spec_minus(value).spec_magnitude().spec_le(threshold) by {
                if i < front.len() {
                    assert(front[i] == candidates[i]);
                }
            }
        }
    }
}

/// How far a drag snaps, in the page's units: six pixels of the screen.
pub open spec fn reach<S: Scalar>(zoom: S) -> S {
    S::spec_ratio(6, 1).spec_over(zoom)
}

/// One coordinate after snapping, and the candidate it was snapped to.
pub open spec fn snapped<S: Scalar>(
    value: S,
    candidates: Seq<S>,
    zoom: S,
    pixel_snap: bool,
) -> (S, Option<S>) {
    match nearest(value, candidates, reach(zoom)) {
        Some(c) => (c, Some(c)),
        None => if pixel_snap {
            (value.spec_rounded(), None)
        } else {
            (value, None)
        },
    }
}

/// One coordinate after snapping, and the candidate it was snapped to.
fn snap_one<S: Scalar>(value: S, candidates: &Vec<S>, zoom: S, pixel_snap: bool) -> (r: (
    S,
    Option<S>,
))
    ensures
        r == snapped(value, candidates@, zoom, pixel_snap),
{
    match snap_value(value, candidates, S::ratio(6, 1).over(zoom)) {
        Some(c) => (c, Some(c)),
        None => if pixel_snap {
            (value.rounded(), None)
        } else {
            (value, None)
        },
    }
}

/// A dragged point after snapping, and the candidates it was snapped to.
pub open spec fn snapped_point<S: Scalar>(
    p: Pos2<S>,
    xs: Seq<S>,
    ys: Seq<S>,
    zoom: S,
    snap_enabled: bool,
    pixel_snap: bool,
) -> (Pos2<S>, Option<S>, Option<S>) {
    if snap_enabled {
        let x = snapped(p.x, xs, zoom, pixel_snap);
        let y = snapped(p.y, ys, zoom, pixel_snap);
        (Pos2 { x: x.0, y: y.0 }, x.1, y.1)
    } else {
        (p, None, None)
    }
}

/// Snaps a dragged point on each axis by itself, to a candidate or else to a whole pixel; returns
/// the candidates it was snapped to, for the lines that show them.
pub fn snap_point<S: Scalar>(
    p: Pos2<S>,
    candidates: &SnapCandidates<S>,
    zoom: S,
    snap_enabled: bool,
    pixel_snap: bool,
) -> (r: (Pos2<S>, Option<S>, Option<S>))
    ensures
        r == snapped_point(p, candidates.xs@, candidates.ys@, zoom, snap_enabled, pixel_snap),
{
    if !snap_enabled {
        return (p, None, None);
    }
    let (x, line_x) = snap_one(p.x, &candidates.xs, zoom, pixel_snap);
    let (y, line_y) = snap_one(p.y, &candidates.ys, zoom, pixel_snap);
    (Pos2 { x, y }, line_x, line_y)
}

/// The smallest correction that brings one of `values` onto a candidate, the first among equals,
/// and that candidate.
pub open spec fn best_correction<S: Scalar>(
    values: Seq<S>,
    candidates: Seq<S>,
    threshold: S,
) -> Option<(S, S)>
    decreases values.len(),
{
    if values.len() == 0 {
        None
    } else {
        let rest = best_correction(values.drop_last(), candidates, threshold);
        match nearest(values.last(), candidates, threshold) {
            Some(c) => {
                let corr = c.spec_minus(values.last());
                match rest {
                    Some((best, _)) => if corr.spec_magnitude().spec_lt(best.spec_magnitude()) {
                        Some((corr, c))
                    } else {
                        rest
                    },
                    None => Some((corr, c)),
                }
            },
            None => rest,
        }
    }
}

/// The correction along one axis of a box that spans `lo`, `mid` and `hi`, and the candidate.
pub open spec fn axis_correction<S: Scalar>(
    lo: S,
    mid: S,
    hi: S,
    candidates: Seq<S>,
    zoom: S,
    pixel_snap: bool,
) -> (Option<S>, Option<S>) {
    match best_correction(seq![lo, mid, hi], candidates, reach(zoom)) {
        Some((corr, c)) => (Some(corr), Some(c)),
        None => if pixel_snap {
            (Some(lo.spec_rounded().spec_minus(lo)), None)
        } else {
            (None, None)
        },
    }
}

fn correct_axis<S: Scalar>(
    lo: S,
    mid: S,
    hi: S,
    candidates: &Vec<S>,
    zoom: S,
    pixel_snap: bool,
) -> (r: (Option<S>, Option<S>))
    ensures
        r == axis_correction(lo, mid, hi, candidates@, zoom, pixel_snap),
{
    let threshold = S::ratio(6, 1).over(zoom);
    let mut values: Vec<S> = Vec::new();
    values.push(lo);
    values.push(mid);
    values.push(hi);
    assert(values@ =~= seq![lo, mid, hi]);
    let mut best: Option<(S, S)> = None;
    let mut i: usize = 0;
    assert(values@.take(0) =~= Seq::empty());
    while i < values.len()
        invariant
            i <= values.len(),
            best == best_correction(values@.take(i as int), candidates@, threshold),
        decreases values.len() - i,
    {
        assert(values@.take(i + 1).drop_last() =~= values@.take(i as int));
        let v = values[i];
        if let Some(c) = snap_value(v, candidates, threshold) {
            let corr = c.minus(v);
            match best {
                Some((least, _)) => {
                    if corr.magnitude().is_lt(least.magnitude()) {
                        best = Some((corr, c));
                    }
                },
                None => {
                    best = Some((corr, c));
                },
            }
        }
        i += 1;
    }
    assert(values@.take(i as int) =~= values@);
    match best {
        Some((corr, c)) => (Some(corr), Some(c)),
        None => if pixel_snap {
            (Some(lo.rounded().minus(lo)), None)
        } else {
            (None, None)
        },
    }
}

pub open spec fn corrected<S: Scalar>(v: S, by: Option<S>) -> S {
    match by {
        Some(d) => v.spec_plus(d),
        None => v,
    }
}

fn correct<S: Scalar>(v: S, by: Option<S>) -> (r: S)
    ensures
        r == corrected(v, by),
{
    match by {
        Some(d) => v.plus(d),
        None => v,
    }
}

/// The move of a box after snapping, and the candidates it was snapped to.
pub open spec fn snapped_move<S: Scalar>(
    bounds: Rect<S>,
    delta: Vec2<S>,
    xs: Seq<S>,
    ys: Seq<S>,
    zoom: S,
    snap_enabled: bool,
    pixel_snap: bool,
) -> (Vec2<S>, Option<S>, Option<S>) {
    if snap_enabled {
        let m = bounds.spec_translate(delta);
        let x = axis_correction(m.min.x, m.spec_center().x, m.max.x, xs, zoom, pixel_snap);
        let y = axis_correction(m.min.y, m.spec_center().y, m.max.y, ys, zoom, pixel_snap);
        (Vec2 { x: corrected(delta.x, x.0), y: corrected(delta.y, y.0) }, x.1, y.1)
    } else {
        (delta, None, None)
    }
}

/// Snaps the move of a box by its edges and its middle, on each axis by whichever needs the
/// smallest correction, or else its top left to a whole pixel.
pub fn snap_bounds_delta<S: Scalar>(
    bounds: Rect<S>,
    delta: Vec2<S>,
    candidates: &SnapCandidates<S>,
    zoom: S,
    snap_enabled: bool,
    pixel_snap: bool,
) -> (r: (Vec2<S>, Option<S>, Option<S>))
    ensures
        r == snapped_move(
            bounds,
            delta,
            candidates.xs@,
            candidates.ys@,
            zoom,
            snap_enabled,
            pixel_snap,
        ),
{
    if !snap_enabled {
        return (delta, None, None);
    }
    let m = bounds.translate(delta);
    let c = m.center();
    let (dx, line_x) = correct_axis(m.min.x, c.x, m.max.x, &candidates.xs, zoom, pixel_snap);
    let (dy, line_y) = correct_axis(m.min.y, c.y, m.max.y, &candidates.ys, zoom, pixel_snap);
    (Vec2 { x: correct(delta.x, dx), y: correct(delta.y, dy) }, line_x, line_y)
}

/// Where a guide that is dragged to `doc_pos` comes to lie.
pub open spec fn snapped_guide<S: Scalar>(
    orientation: GuideOrientation,
    doc_pos: Pos2<S>,
    xs: Seq<S>,
    ys: Seq<S>,
    zoom: S,
    snap_enabled: bool,
    pixel_snap: bool,
) -> S {
    let raw = if orientation == GuideOrientation::Horizontal {
        doc_pos.y
    } else {
        doc_pos.x
    };
    let along = if orientation == GuideOrientation::Horizontal {
        ys
    } else {
        xs
    };
    if snap_enabled {
        snapped(raw, along, zoom, pixel_snap).0
    } else {
        raw
    }
}

/// Where a guide that is dragged to `doc_pos` comes to lie.
pub fn snap_guide_axis<S: Scalar>(
    orientation: GuideOrientation,
    doc_pos: Pos2<S>,
    candidates: &SnapCandidates<S>,
    zoom: S,
    snap_enabled: bool,
    pixel_snap: bool,
) -> (r: S)
    ensures
        r == snapped_guide(
            orientation,
            doc_pos,
            candidates.xs@,
            candidates.ys@,
            zoom,
            snap_enabled,
            pixel_snap,
        ),
{
    let raw = match orientation {
        GuideOrientation::Horizontal => doc_pos.y,
        GuideOrientation::Vertical => doc_pos.x,
    };
    if !snap_enabled {
        return raw;
    }
    let (v, _) = match orientation {
        GuideOrientation::Horizontal => snap_one(raw, &candidates.ys, zoom, pixel_snap),
        GuideOrientation::Vertical => snap_one(raw, &candidates.xs, zoom, pixel_snap),
    };
    v
}

/// The edges that face each other across the gap between two intervals.
pub open spec fn gap_between<S: Scalar>(a_min: S, a_max: S, b_min: S, b_max: S) -> Option<(S, S)> {
    if a_max.spec_le(b_min) {
        Some((a_max, b_min))
    } else if b_max.spec_le(a_min) {
        Some((b_max, a_min))
    } else {
        None
    }
}

/// The edges that face each other across the gap between two intervals; none where they overlap.
pub fn axis_gap<S: Scalar>(a_min: S, a_max: S, b_min: S, b_max: S) -> (r: Option<(S, S)>)
    ensures
        r == gap_between(a_min, a_max, b_min, b_max),
{
    if a_max.is_le(b_min) {
        Some((a_max, b_min))
    } else if b_max.is_le(a_min) {
        Some((b_max, a_min))
    } else {
        None
    }
}

} // verus!
