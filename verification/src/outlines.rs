//! Shapes as outlines of straight and curved steps, for drawing into a pixmap.
use vstd::prelude::*;

use crate::geometry::{Pos2, Rect, Vec2};
use crate::model::{polygon_views, CornerRadii, PathPoint, PathPolygon, PolygonView};
use crate::path_edit::{flatten_path, flattened, next_index, or_zero, segment_count};
use crate::scalar::Scalar;

verus! {

/// One step of an outline.
#[derive(Debug, PartialEq)]
pub enum PathStep<S> {
    MoveTo(Pos2<S>),
    LineTo(Pos2<S>),
    QuadTo { control: Pos2<S>, to: Pos2<S> },
    CubicTo { first: Pos2<S>, second: Pos2<S>, to: Pos2<S> },
    Close,
}

impl<S: Scalar> Clone for PathStep<S> {
    fn clone(&self) -> (r: Self)
        ensures
            r == *self,
    {
        *self
    }
}

impl<S: Scalar> Copy for PathStep<S> {

}

/// An outline to fill or to stroke.
#[derive(Debug, PartialEq)]
pub enum Outline<S> {
    Rect(Rect<S>),
    Oval(Rect<S>),
    Steps(Vec<PathStep<S>>),
}

#[verifier::ext_equal]
pub enum OutlineView<S> {
    Rect(Rect<S>),
    Oval(Rect<S>),
    Steps(Seq<PathStep<S>>),
}

impl<S: Scalar> Outline<S> {
    pub open spec fn view(&self) -> OutlineView<S> {
        match *self {
            Outline::Rect(r) => OutlineView::Rect(r),
            Outline::Oval(r) => OutlineView::Oval(r),
            Outline::Steps(s) => OutlineView::Steps(s@),
        }
    }

    /// A copy of its own.
    pub fn duplicate(&self) -> (r: Self)
        ensures
            r@ == self@,
    {
        match self {
            Outline::Rect(r) => Outline::Rect(*r),
            Outline::Oval(r) => Outline::Oval(*r),
            Outline::Steps(s) => Outline::Steps(crate::style::copy_vec(s)),
        }
    }
}

/// The view of an outline that may be missing.
pub open spec fn outline_view<S: Scalar>(o: Option<Outline<S>>) -> Option<OutlineView<S>> {
    match o {
        Some(o) => Some(o@),
        None => None,
    }
}

/// The steps through the first `k` points, each moved by `offset`.
pub open spec fn traced<S: Scalar>(points: Seq<Pos2<S>>, offset: Vec2<S>, k: nat) -> Seq<
    PathStep<S>,
> {
    Seq::new(
        k,
        |i: int|
            if i == 0 {
                PathStep::MoveTo(points[i].spec_plus(offset))
            } else {
                PathStep::LineTo(points[i].spec_plus(offset))
            },
    )
}

/// The steps round a ring.
pub open spec fn ring_steps<S: Scalar>(points: Seq<Pos2<S>>, offset: Vec2<S>) -> Seq<PathStep<S>> {
    traced(points, offset, points.len()).push(PathStep::Close)
}

/// Traces points that are moved by `offset`.
fn push_trace<S: Scalar>(points: &Vec<Pos2<S>>, offset: Vec2<S>, out: &mut Vec<PathStep<S>>)
    ensures
        final(out)@ == old(out)@ + traced(points@, offset, points@.len()),
{
    let mut i: usize = 0;
    assert(out@ =~= old(out)@ + traced(points@, offset, 0));
    while i < points.len()
        invariant
            i <= points.len(),
            out@ == old(out)@ + traced(points@, offset, i as nat),
        decreases points.len() - i,
    {
        let p = points[i].plus(offset);
        if i == 0 {
            out.push(PathStep::MoveTo(p));
        } else {
            out.push(PathStep::LineTo(p));
        }
        i += 1;
        assert(out@ =~= old(out)@ + traced(points@, offset, i as nat));
    }
}

/// The outline of a ring of points; none for fewer than three.
pub open spec fn ring_outline<S: Scalar>(points: Seq<Pos2<S>>) -> Option<OutlineView<S>> {
    if points.len() < 3 {
        None
    } else {
        Some(
            OutlineView::Steps(
                Seq::new(
                    points.len(),
                    |i: int|
                        if i == 0 {
                            PathStep::MoveTo(points[i])
                        } else {
                            PathStep::LineTo(points[i])
                        },
                ).push(PathStep::Close),
            ),
        )
    }
}

/// The outline of a ring of points; none for fewer than three.
pub fn polygon_ring_path<S: Scalar>(points: &Vec<Pos2<S>>) -> (r: Option<Outline<S>>)
    ensures
        outline_view(r) == ring_outline(points@),
{
    if points.len() < 3 {
        return None;
    }
    let mut out: Vec<PathStep<S>> = Vec::new();
    let mut i: usize = 0;
    while i < points.len()
        invariant
            i <= points.len(),
            out@ == Seq::new(
                i as nat,
                |i: int|
                    if i == 0 {
                        PathStep::MoveTo(points@[i])
                    } else {
                        PathStep::LineTo(points@[i])
                    },
            ),
        decreases points.len() - i,
    {
        if i == 0 {
            out.push(PathStep::MoveTo(points[i]));
        } else {
            out.push(PathStep::LineTo(points[i]));
        }
        i += 1;
    }
    out.push(PathStep::Close);
    Some(Outline::Steps(out))
}

/// Whether a point of a path has a rounded corner.
pub open spec fn any_rounded<S: Scalar>(points: Seq<PathPoint<S>>) -> bool {
    exists|i: int|
        0 <= i < points.len() && S::spec_ratio(0, 1).spec_lt(
            (#[trigger] points[i]).corner_radius,
        )
}

/// The step along the `i`-th segment of a path.
pub open spec fn segment_step<S: Scalar>(points: Seq<PathPoint<S>>, offset: Vec2<S>, i: int) -> PathStep<
    S,
> {
    let a = points[i];
    let b = points[next_index(i, points.len() as int)];
    let p0 = a.anchor.spec_plus(offset);
    let p3 = b.anchor.spec_plus(offset);
    if a.handle_out is None && b.handle_in is None {
        PathStep::LineTo(p3)
    } else {
        PathStep::CubicTo {
            first: p0.spec_plus(or_zero(a.handle_out)),
            second: p3.spec_plus(or_zero(b.handle_in)),
            to: p3,
        }
    }
}

/// The steps along a path; none for fewer than two points. With a rounded corner anywhere, the
/// path is traced along its flattened form.
pub open spec fn path_outline<S: Scalar>(
    points: Seq<PathPoint<S>>,
    closed: bool,
    offset: Vec2<S>,
) -> Option<OutlineView<S>> {
    let end = if closed {
        seq![PathStep::Close]
    } else {
        Seq::empty()
    };
    if points.len() < 2 {
        None
    } else if any_rounded(points) {
        let flat = flattened(points, closed);
        if flat.len() < 2 {
            None
        } else {
            Some(OutlineView::Steps(traced(flat, offset, flat.len()) + end))
        }
    } else {
        Some(
            OutlineView::Steps(
                seq![PathStep::MoveTo(points[0].anchor.spec_plus(offset))] + Seq::new(
                    segment_count(points.len() as int, closed) as nat,
                    |i: int| segment_step(points, offset, i),
                ) + end,
            ),
        )
    }
}

fn has_rounded<S: Scalar>(points: &Vec<PathPoint<S>>) -> (r: bool)
    ensures
        r == any_rounded(points@),
{
    let mut i: usize = 0;
    while i < points.len()
        invariant
            i <= points.len(),
            forall|k: int|
                0 <= k < i ==> !S::spec_ratio(0, 1).spec_lt((#[trigger] points@[k]).corner_radius),
        decreases points.len() - i,
    {
        if S::ratio(0, 1).is_lt(points[i].corner_radius) {
            assert(S::spec_ratio(0, 1).spec_lt(points@[i as int].corner_radius));
            return true;
        }
        i += 1;
    }
    false
}

fn handle_or_zero<S: Scalar>(h: Option<Vec2<S>>) -> (r: Vec2<S>)
    ensures
        r == or_zero(h),
{
    match h {
        Some(v) => v,
        None => Vec2::zero(),
    }
}

/// The steps along a path moved by `offset`; none for fewer than two points.
#[verifier::rlimit(50)]
pub fn path_to_sk_path<S: Scalar>(points: &Vec<PathPoint<S>>, closed: bool, offset: Vec2<S>) -> (r:
    Option<Outline<S>>)
    ensures
        outline_view(r) == path_outline(points@, closed, offset),
{
    let n = points.len();
    if n < 2 {
        return None;
    }
    let mut out: Vec<PathStep<S>> = Vec::new();
    if has_rounded(points) {
        let flat = flatten_path(points.as_slice(), closed);
        if flat.len() < 2 {
            return None;
        }
        push_trace(&flat, offset, &mut out);
        if closed {
            out.push(PathStep::Close);
        }
        assert(out@ =~= traced(flat@, offset, flat@.len()) + (if closed {
            seq![PathStep::Close]
        } else {
            Seq::empty()
        }));
        return Some(Outline::Steps(out));
    }
    out.push(PathStep::MoveTo(points[0].anchor.plus(offset)));
    let count = if closed {
        n
    } else {
        n - 1
    };
    let ghost head = seq![PathStep::MoveTo(points@[0].anchor.spec_plus(offset))];
    let mut i: usize = 0;
    assert(out@ =~= head + Seq::new(0, |i: int| segment_step(points@, offset, i)));
    while i < count
        invariant
            n == points.len(),
            n >= 2,
            count == segment_count(n as int, closed),
            count <= n,
            i <= count,
            out@ == head + Seq::new(i as nat, |i: int| segment_step(points@, offset, i)),
        decreases count - i,
    {
        let a = points[i];
        let b = if i + 1 < n {
            points[i + 1]
        } else {
            points[0]
        };
        assert(b == points@[next_index(i as int, n as int)]);
        let p0 = a.anchor.plus(offset);
        let p3 = b.anchor.plus(offset);
        if a.handle_out.is_none() && b.handle_in.is_none() {
            out.push(PathStep::LineTo(p3));
        } else {
            out.push(
                PathStep::CubicTo {
                    first: p0.plus(handle_or_zero(a.handle_out)),
                    second: p3.plus(handle_or_zero(b.handle_in)),
                    to: p3,
                },
            );
        }
        i += 1;
        assert(out@ =~= head + Seq::new(i as nat, |i: int| segment_step(points@, offset, i)));
    }
    if closed {
        out.push(PathStep::Close);
    }
    assert(out@ =~= head + Seq::new(count as nat, |i: int| segment_step(points@, offset, i)) + (
    if closed {
        seq![PathStep::Close]
    } else {
        Seq::empty()
    }));
    Some(Outline::Steps(out))
}

/// The steps round the first `k` of some rings, those of fewer than three points left out.
pub open spec fn rings_traced<S: Scalar>(rings: Seq<Seq<Pos2<S>>>, offset: Vec2<S>, k: nat) -> Seq<
    PathStep<S>,
>
    decreases k,
{
    if k == 0 {
        Seq::empty()
    } else {
        let rest = rings_traced(rings, offset, (k - 1) as nat);
        if rings[k - 1].len() < 3 {
            rest
        } else {
            rest + ring_steps(rings[k - 1], offset)
        }
    }
}

/// The steps round the first `k` of some polygons, each with its holes.
pub open spec fn polygons_traced<S: Scalar>(
    polygons: Seq<PolygonView<S>>,
    offset: Vec2<S>,
    k: nat,
) -> Seq<PathStep<S>>
    decreases k,
{
    if k == 0 {
        Seq::empty()
    } else {
        let p = polygons[k - 1];
        polygons_traced(polygons, offset, (k - 1) as nat) + rings_traced(
            seq![p.exterior],
            offset,
            1,
        ) + rings_traced(p.holes, offset, p.holes.len())
    }
}

/// The outline of polygons with holes; none where no ring has three points.
pub open spec fn compound_outline<S: Scalar>(polygons: Seq<PolygonView<S>>, offset: Vec2<S>) -> Option<
    OutlineView<S>,
> {
    let steps = polygons_traced(polygons, offset, polygons.len());
    if steps.len() == 0 {
        None
    } else {
        Some(OutlineView::Steps(steps))
    }
}

fn push_ring<S: Scalar>(ring: &Vec<Pos2<S>>, offset: Vec2<S>, out: &mut Vec<PathStep<S>>)
    ensures
        final(out)@ == old(out)@ + (if ring@.len() < 3 {
            Seq::empty()
        } else {
            ring_steps(ring@, offset)
        }),
{
    if ring.len() >= 3 {
        push_trace(ring, offset, out);
        out.push(PathStep::Close);
        assert(out@ =~= old(out)@ + ring_steps(ring@, offset));
    } else {
        assert(out@ =~= old(out)@ + Seq::<PathStep<S>>::empty());
    }
}

/// The outline of polygons with holes, moved by `offset`, to be filled by the even-odd rule; none
/// where no ring has three points.
pub fn compound_path_to_sk_path<S: Scalar>(polygons: &Vec<PathPolygon<S>>, offset: Vec2<S>) -> (r:
    Option<Outline<S>>)
    ensures
        outline_view(r) == compound_outline(polygon_views(polygons@), offset),
{
    let ghost pv = polygon_views(polygons@);
    let mut out: Vec<PathStep<S>> = Vec::new();
    let mut k: usize = 0;
    while k < polygons.len()
        invariant
            pv == polygon_views(polygons@),
            k <= polygons.len(),
            out@ == polygons_traced(pv, offset, k as nat),
        decreases polygons.len() - k,
    {
        let p = &polygons[k];
        let ghost v = pv[k as int];
        assert(v == p@);
        let ghost start = out@;
        push_ring(&p.exterior, offset, &mut out);
        proof {
            assert(rings_traced(seq![v.exterior], offset, 0) =~= Seq::empty());
            assert(seq![v.exterior][0] == v.exterior);
            assert(out@ =~= start + rings_traced(seq![v.exterior], offset, 1));
        }
        let ghost mid = out@;
        let mut j: usize = 0;
        assert(out@ =~= mid + rings_traced(v.holes, offset, 0));
        while j < p.holes.len()
            invariant
                v == p@,
                j <= p.holes.len(),
                out@ == mid + rings_traced(v.holes, offset, j as nat),
            decreases p.holes.len() - j,
        {
            assert(v.holes[j as int] == p.holes@[j as int]@);
            push_ring(&p.holes[j], offset, &mut out);
            j += 1;
            assert(out@ =~= mid + rings_traced(v.holes, offset, j as nat));
        }
        k += 1;
    }
    if out.len() == 0 {
        None
    } else {
        Some(Outline::Steps(out))
    }
}

/// A corner radius as far as a box allows.
pub open spec fn held_radius<S: Scalar>(r: S, rect: Rect<S>) -> S {
    r.spec_greater(S::spec_ratio(0, 1)).spec_lesser(
        rect.spec_width().spec_lesser(rect.spec_height()).spec_over(S::spec_ratio(2, 1)),
    )
}

fn hold_radius<S: Scalar>(r: S, rect: Rect<S>) -> (q: S)
    ensures
        q == held_radius(r, rect),
{
    r.greater(S::ratio(0, 1)).lesser(rect.width().lesser(rect.height()).over(S::ratio(2, 1)))
}

/// A line to where a corner begins, and the curve round it unless its radius is too small.
pub open spec fn corner_steps<S: Scalar>(
    before: Pos2<S>,
    corner: Pos2<S>,
    after: Pos2<S>,
    radius: S,
) -> Seq<PathStep<S>> {
    if S::spec_ratio(1, 2).spec_le(radius) {
        seq![PathStep::LineTo(before), PathStep::QuadTo { control: corner, to: after }]
    } else {
        seq![PathStep::LineTo(before)]
    }
}

fn push_corner_steps<S: Scalar>(
    before: Pos2<S>,
    corner: Pos2<S>,
    after: Pos2<S>,
    radius: S,
    out: &mut Vec<PathStep<S>>,
)
    ensures
        final(out)@ == old(out)@ + corner_steps(before, corner, after, radius),
{
    out.push(PathStep::LineTo(before));
    if S::ratio(1, 2).is_le(radius) {
        out.push(PathStep::QuadTo { control: corner, to: after });
    }
    assert(out@ =~= old(out)@ + corner_steps(before, corner, after, radius));
}

/// The outline of a box with rounded corners; the plain box where every radius is too small.
pub open spec fn rounded_outline<S: Scalar>(rect: Rect<S>, radii: CornerRadii<S>) -> OutlineView<S> {
    let half = S::spec_ratio(1, 2);
    let tl = held_radius(radii.top_left, rect);
    let tr = held_radius(radii.top_right, rect);
    let br = held_radius(radii.bottom_right, rect);
    let bl = held_radius(radii.bottom_left, rect);
    let a = rect.min;
    let b = rect.max;
    if tl.spec_lt(half) && tr.spec_lt(half) && br.spec_lt(half) && bl.spec_lt(half) {
        OutlineView::Rect(rect)
    } else {
        OutlineView::Steps(
            (seq![PathStep::MoveTo(Pos2 { x: a.x.spec_plus(tl), y: a.y })] + corner_steps(
                Pos2 { x: b.x.spec_minus(tr), y: a.y },
                Pos2 { x: b.x, y: a.y },
                Pos2 { x: b.x, y: a.y.spec_plus(tr) },
                tr,
            ) + corner_steps(
                Pos2 { x: b.x, y: b.y.spec_minus(br) },
                Pos2 { x: b.x, y: b.y },
                Pos2 { x: b.x.spec_minus(br), y: b.y },
                br,
            ) + corner_steps(
                Pos2 { x: a.x.spec_plus(bl), y: b.y },
                Pos2 { x: a.x, y: b.y },
                Pos2 { x: a.x, y: b.y.spec_minus(bl) },
                bl,
            ) + corner_steps(
                Pos2 { x: a.x, y: a.y.spec_plus(tl) },
                Pos2 { x: a.x, y: a.y },
                Pos2 { x: a.x.spec_plus(tl), y: a.y },
                tl,
            )).push(PathStep::Close),
        )
    }
}

/// The outline of a box with rounded corners.
pub fn rounded_rect_path<S: Scalar>(rect: Rect<S>, radii: CornerRadii<S>) -> (r: Outline<S>)
    ensures
        r@ == rounded_outline(rect, radii),
{
    let half = S::ratio(1, 2);
    let tl = hold_radius(radii.top_left, rect);
    let tr = hold_radius(radii.top_right, rect);
    let br = hold_radius(radii.bottom_right, rect);
    let bl = hold_radius(radii.bottom_left, rect);
    let a = rect.min;
    let b = rect.max;
    if tl.is_lt(half) && tr.is_lt(half) && br.is_lt(half) && bl.is_lt(half) {
        return Outline::Rect(rect);
    }
    let mut out: Vec<PathStep<S>> = Vec::new();
    out.push(PathStep::MoveTo(Pos2 { x: a.x.plus(tl), y: a.y }));
    assert(out@ =~= seq![PathStep::MoveTo(Pos2 { x: a.x.spec_plus(tl), y: a.y })]);
    push_corner_steps(
        Pos2 { x: b.x.minus(tr), y: a.y },
        Pos2 { x: b.x, y: a.y },
        Pos2 { x: b.x, y: a.y.plus(tr) },
        tr,
        &mut out,
    );
    push_corner_steps(
        Pos2 { x: b.x, y: b.y.minus(br) },
        Pos2 { x: b.x, y: b.y },
        Pos2 { x: b.x.minus(br), y: b.y },
        br,
        &mut out,
    );
    push_corner_steps(
        Pos2 { x: a.x.plus(bl), y: b.y },
        Pos2 { x: a.x, y: b.y },
        Pos2 { x: a.x, y: b.y.minus(bl) },
        bl,
        &mut out,
    );
    push_corner_steps(
        Pos2 { x: a.x, y: a.y.plus(tl) },
        Pos2 { x: a.x, y: a.y },
        Pos2 { x: a.x.plus(tl), y: a.y },
        tl,
        &mut out,
    );
    out.push(PathStep::Close);
    Outline::Steps(out)
}

/// The size of the marker at an end of an arrow.
pub open spec fn cap_size<S: Scalar>(width: S) -> S {
    width.spec_times(S::spec_ratio(7, 2)).spec_greater(S::spec_ratio(8, 1))
}

/// The size of the marker at an end of an arrow.
pub fn arrow_cap_size<S: Scalar>(stroke_width: S) -> (r: S)
    ensures
        r == cap_size(stroke_width),
{
    stroke_width.times(S::ratio(7, 2)).greater(S::ratio(8, 1))
}

/// The two back corners of the marker at `tip` that points `outward`; none for an arrow without
/// length.
pub open spec fn cap_wings<S: Scalar>(tip: Pos2<S>, outward: Vec2<S>, width: S) -> Option<
    (Pos2<S>, Pos2<S>),
> {
    let half = S::spec_ratio(1, 2);
    if outward.spec_length().spec_lt(S::spec_ratio(1, 1000)) {
        None
    } else {
        let dir = outward.spec_unit();
        let perp = Vec2 { x: dir.y.spec_negated(), y: dir.x };
        let size = cap_size(width);
        let base = tip.spec_minus(dir.spec_scaled(size));
        let side = perp.spec_scaled(size).spec_scaled(half);
        Some((base.spec_plus(side), base.spec_minus(side)))
    }
}

/// The two back corners of the marker at `tip` that points `outward`; none for an arrow without
/// length.
pub fn arrow_cap_wings<S: Scalar>(tip: Pos2<S>, outward: Vec2<S>, stroke_width: S) -> (r: Option<
    (Pos2<S>, Pos2<S>),
>)
    ensures
        r == cap_wings(tip, outward, stroke_width),
{
    if outward.length().is_lt(S::ratio(1, 1000)) {
        return None;
    }
    let dir = outward.unit();
    let perp = Vec2 { x: dir.y.negated(), y: dir.x };
    let size = arrow_cap_size(stroke_width);
    let base = tip.minus(dir.scaled(size));
    let side = perp.scaled(size).scaled(S::ratio(1, 2));
    Some((base.plus(side), base.minus(side)))
}

} // verus!
