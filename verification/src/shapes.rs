//! The outlines of the parametric shapes, as rings of points.
use vstd::prelude::*;

use crate::geometry::{Pos2, Rect, Vec2};
use crate::model::CornerRadii;
use crate::scalar::Scalar;

verus! {

/// How many points stand for an ellipse.
pub const ELLIPSE_POINTS: usize = 64;

/// How many chords stand for a quarter circle at a rectangle's corner.
pub const ROUND_CORNER_STEPS: usize = 8;

/// The point of an ellipse at an angle in degrees, clockwise from the right.
pub open spec fn on_ellipse<S: Scalar>(center: Pos2<S>, rx: S, ry: S, degrees: S) -> Pos2<S> {
    Pos2 {
        x: center.x.spec_plus(rx.spec_times(degrees.spec_cos_deg())),
        y: center.y.spec_plus(ry.spec_times(degrees.spec_sin_deg())),
    }
}

fn ellipse_at<S: Scalar>(center: Pos2<S>, rx: S, ry: S, degrees: S) -> (r: Pos2<S>)
    ensures
        r == on_ellipse(center, rx, ry, degrees),
{
    Pos2 {
        x: center.x.plus(rx.times(degrees.cos_deg())),
        y: center.y.plus(ry.times(degrees.sin_deg())),
    }
}

/// The angle of the `k`-th of `n` equal steps around a circle, `start` degrees on.
pub open spec fn step_angle<S: Scalar>(start: int, k: int, n: int) -> S {
    S::spec_ratio(start, 1).spec_plus(
        S::spec_ratio(360, 1).spec_times(S::spec_ratio(k, 1)).spec_over(S::spec_ratio(n, 1)),
    )
}

fn angle_of<S: Scalar>(start: i32, k: u64, n: u64) -> (r: S)
    ensures
        r == step_angle::<S>(start as int, k as int, n as int),
{
    S::ratio(start, 1).plus(S::ratio(360, 1).times(S::of_count(k)).over(S::of_count(n)))
}

/// The outline of an ellipse.
pub open spec fn ellipse<S: Scalar>(center: Pos2<S>, rx: S, ry: S) -> Seq<Pos2<S>> {
    Seq::new(
        ELLIPSE_POINTS as nat,
        |k: int| on_ellipse(center, rx, ry, step_angle(0, k, ELLIPSE_POINTS as int)),
    )
}

/// The outline of an ellipse.
pub fn ellipse_points<S: Scalar>(center: Pos2<S>, rx: S, ry: S) -> (r: Vec<Pos2<S>>)
    ensures
        r@ == ellipse(center, rx, ry),
{
    let mut r: Vec<Pos2<S>> = Vec::new();
    let mut k: usize = 0;
    while k < ELLIPSE_POINTS
        invariant
            k <= ELLIPSE_POINTS,
            r.len() == k,
            forall|j: int| 0 <= j < k ==> #[trigger] r@[j] == ellipse(center, rx, ry)[j],
        decreases ELLIPSE_POINTS - k,
    {
        r.push(ellipse_at(center, rx, ry, angle_of(0, k as u64, ELLIPSE_POINTS as u64)));
        k += 1;
    }
    assert(r@ =~= ellipse(center, rx, ry));
    r
}

/// The outline of a star: tips on the ellipse, the first at the top, and notches at a fraction of
/// its radii.
pub open spec fn star<S: Scalar>(
    center: Pos2<S>,
    rx: S,
    ry: S,
    points: u32,
    inner_ratio: S,
) -> Seq<Pos2<S>> {
    Seq::new(
        (2 * points) as nat,
        |k: int|
            if k % 2 == 0 {
                on_ellipse(center, rx, ry, step_angle(-90, k, 2 * points))
            } else {
                on_ellipse(
                    center,
                    rx.spec_times(inner_ratio),
                    ry.spec_times(inner_ratio),
                    step_angle(-90, k, 2 * points),
                )
            },
    )
}

/// The outline of a star.
pub fn star_points<S: Scalar>(center: Pos2<S>, rx: S, ry: S, points: u32, inner_ratio: S) -> (r: Vec<
    Pos2<S>,
>)
    ensures
        r@ == star(center, rx, ry, points, inner_ratio),
{
    let n: u64 = 2 * (points as u64);
    let ix = rx.times(inner_ratio);
    let iy = ry.times(inner_ratio);
    let mut r: Vec<Pos2<S>> = Vec::new();
    let mut k: u64 = 0;
    while k < n
        invariant
            k <= n,
            n == 2 * points,
            ix == rx.spec_times(inner_ratio),
            iy == ry.spec_times(inner_ratio),
            r.len() == k,
            forall|j: int|
                0 <= j < k ==> #[trigger] r@[j] == star(center, rx, ry, points, inner_ratio)[j],
        decreases n - k,
    {
        if k % 2 == 0 {
            r.push(ellipse_at(center, rx, ry, angle_of(-90, k, n)));
        } else {
            r.push(ellipse_at(center, ix, iy, angle_of(-90, k, n)));
        }
        k += 1;
    }
    assert(r@ =~= star(center, rx, ry, points, inner_ratio));
    r
}

/// The outline of a regular polygon, the first corner at the top.
pub open spec fn regular_polygon<S: Scalar>(center: Pos2<S>, rx: S, ry: S, sides: u32) -> Seq<
    Pos2<S>,
> {
    Seq::new(
        sides as nat,
        |k: int| on_ellipse(center, rx, ry, step_angle(-90, k, sides as int)),
    )
}

/// The outline of a regular polygon.
pub fn polygon_points<S: Scalar>(center: Pos2<S>, rx: S, ry: S, sides: u32) -> (r: Vec<Pos2<S>>)
    ensures
        r@ == regular_polygon(center, rx, ry, sides),
{
    let mut r: Vec<Pos2<S>> = Vec::new();
    let mut k: u32 = 0;
    while k < sides
        invariant
            k <= sides,
            r.len() == k,
            forall|j: int| 0 <= j < k ==> #[trigger] r@[j] == regular_polygon(center, rx, ry, sides)[j],
        decreases sides - k,
    {
        r.push(ellipse_at(center, rx, ry, angle_of(-90, k as u64, sides as u64)));
        k += 1;
    }
    assert(r@ =~= regular_polygon(center, rx, ry, sides));
    r
}

/// A corner radius, not negative and at most half the shorter side.
pub open spec fn fitted_radius<S: Scalar>(r: S, b: Rect<S>) -> S {
    r.spec_greater(S::spec_ratio(0, 1)).spec_lesser(
        b.spec_width().spec_lesser(b.spec_height()).spec_over(S::spec_ratio(2, 1)),
    )
}

fn fit_radius<S: Scalar>(r: S, b: Rect<S>) -> (q: S)
    ensures
        q == fitted_radius(r, b),
{
    r.greater(S::ratio(0, 1)).lesser(b.width().lesser(b.height()).over(S::ratio(2, 1)))
}

/// The `k`-th point of a quarter circle about `center` that starts at `quarter` quarter turns.
pub open spec fn quarter_point<S: Scalar>(center: Pos2<S>, radius: S, quarter: int, k: int) -> Pos2<
    S,
> {
    on_ellipse(
        center,
        radius,
        radius,
        S::spec_ratio(90 * quarter, 1).spec_plus(
            S::spec_ratio(90 * k, ROUND_CORNER_STEPS as int),
        ),
    )
}

/// A corner of a rectangle: sharp where its radius is nothing, a quarter circle otherwise.
pub open spec fn round_corner<S: Scalar>(
    corner: Pos2<S>,
    center: Pos2<S>,
    radius: S,
    quarter: int,
) -> Seq<Pos2<S>> {
    if radius.spec_le(S::spec_ratio(0, 1)) {
        seq![corner]
    } else {
        Seq::new(
            (ROUND_CORNER_STEPS + 1) as nat,
            |k: int| quarter_point(center, radius, quarter, k),
        )
    }
}

fn push_corner<S: Scalar>(
    out: &mut Vec<Pos2<S>>,
    corner: Pos2<S>,
    center: Pos2<S>,
    radius: S,
    quarter: i32,
)
    requires
        0 <= quarter <= 3,
    ensures
        final(out)@ == old(out)@ + round_corner(corner, center, radius, quarter as int),
{
    let ghost start = out@;
    if radius.is_le(S::ratio(0, 1)) {
        out.push(corner);
        assert(out@ =~= start + seq![corner]);
        return;
    }
    let ghost arc = round_corner(corner, center, radius, quarter as int);
    let mut k: i32 = 0;
    assert(out@ =~= start + arc.take(0));
    while k <= 8
        invariant
            0 <= k <= 9,
            0 <= quarter <= 3,
            arc == round_corner(corner, center, radius, quarter as int),
            arc.len() == 9,
            !radius.spec_le(S::spec_ratio(0, 1)),
            out@ == start + arc.take(k as int),
        decreases 9 - k,
    {
        let degrees = S::ratio(90 * quarter, 1).plus(S::ratio(90 * k, 8));
        out.push(ellipse_at(center, radius, radius, degrees));
        k += 1;
        assert(out@ =~= start + arc.take(k as int));
    }
    assert(arc.take(9) =~= arc);
}

/// The outline of a rectangle with rounded corners, clockwise from the top left.
pub open spec fn rounded_rect<S: Scalar>(b: Rect<S>, radii: CornerRadii<S>) -> Seq<Pos2<S>> {
    let tl = fitted_radius(radii.top_left, b);
    let tr = fitted_radius(radii.top_right, b);
    let br = fitted_radius(radii.bottom_right, b);
    let bl = fitted_radius(radii.bottom_left, b);
    round_corner(
        b.min,
        Pos2 { x: b.min.x.spec_plus(tl), y: b.min.y.spec_plus(tl) },
        tl,
        2,
    ) + round_corner(
        Pos2 { x: b.max.x, y: b.min.y },
        Pos2 { x: b.max.x.spec_minus(tr), y: b.min.y.spec_plus(tr) },
        tr,
        3,
    ) + round_corner(
        b.max,
        Pos2 { x: b.max.x.spec_minus(br), y: b.max.y.spec_minus(br) },
        br,
        0,
    ) + round_corner(
        Pos2 { x: b.min.x, y: b.max.y },
        Pos2 { x: b.min.x.spec_plus(bl), y: b.max.y.spec_minus(bl) },
        bl,
        1,
    )
}

/// The outline of a rectangle with rounded corners.
pub fn rounded_rect_points<S: Scalar>(b: Rect<S>, radii: CornerRadii<S>) -> (r: Vec<Pos2<S>>)
    ensures
        r@ == rounded_rect(b, radii),
{
    let tl = fit_radius(radii.top_left, b);
    let tr = fit_radius(radii.top_right, b);
    let br = fit_radius(radii.bottom_right, b);
    let bl = fit_radius(radii.bottom_left, b);
    let mut r: Vec<Pos2<S>> = Vec::new();
    push_corner(&mut r, b.min, Pos2 { x: b.min.x.plus(tl), y: b.min.y.plus(tl) }, tl, 2);
    push_corner(
        &mut r,
        Pos2 { x: b.max.x, y: b.min.y },
        Pos2 { x: b.max.x.minus(tr), y: b.min.y.plus(tr) },
        tr,
        3,
    );
    push_corner(&mut r, b.max, Pos2 { x: b.max.x.minus(br), y: b.max.y.minus(br) }, br, 0);
    push_corner(
        &mut r,
        Pos2 { x: b.min.x, y: b.max.y },
        Pos2 { x: b.min.x.plus(bl), y: b.max.y.minus(bl) },
        bl,
        1,
    );
    assert(r@ =~= rounded_rect(b, radii));
    r
}

/// A ring moved by `offset` and turned by `degrees` about `center`.
pub open spec fn placed_ring<S: Scalar>(
    ring: Seq<Pos2<S>>,
    offset: Vec2<S>,
    center: Pos2<S>,
    degrees: S,
) -> Seq<Pos2<S>> {
    Seq::new(ring.len(), |i: int| ring[i].spec_plus(offset).spec_rotated(center, degrees))
}

/// A ring turned by `degrees` about `center`.
pub open spec fn turned_ring<S: Scalar>(ring: Seq<Pos2<S>>, center: Pos2<S>, degrees: S) -> Seq<
    Pos2<S>,
> {
    Seq::new(ring.len(), |i: int| ring[i].spec_rotated(center, degrees))
}

/// A ring moved by `offset` and turned by `degrees` about `center`.
pub fn place_ring<S: Scalar>(ring: &Vec<Pos2<S>>, offset: Vec2<S>, center: Pos2<S>, degrees: S) -> (r:
    Vec<Pos2<S>>)
    ensures
        r@ == placed_ring(ring@, offset, center, degrees),
{
    let mut r: Vec<Pos2<S>> = Vec::new();
    let mut i: usize = 0;
    while i < ring.len()
        invariant
            i <= ring.len(),
            r.len() == i,
            forall|k: int|
                0 <= k < i ==> #[trigger] r@[k] == placed_ring(ring@, offset, center, degrees)[k],
        decreases ring.len() - i,
    {
        r.push(ring[i].plus(offset).rotated(center, degrees));
        i += 1;
    }
    assert(r@ =~= placed_ring(ring@, offset, center, degrees));
    r
}

/// A ring turned by `degrees` about `center`.
pub fn turn_ring<S: Scalar>(ring: &Vec<Pos2<S>>, center: Pos2<S>, degrees: S) -> (r: Vec<Pos2<S>>)
    ensures
        r@ == turned_ring(ring@, center, degrees),
{
    let mut r: Vec<Pos2<S>> = Vec::new();
    let mut i: usize = 0;
    while i < ring.len()
        invariant
            i <= ring.len(),
            r.len() == i,
            forall|k: int|
                0 <= k < i ==> #[trigger] r@[k] == turned_ring(ring@, center, degrees)[k],
        decreases ring.len() - i,
    {
        r.push(ring[i].rotated(center, degrees));
        i += 1;
    }
    assert(r@ =~= turned_ring(ring@, center, degrees));
    r
}

} // verus!
