//! The outlines of shapes: where in its frame each one lies.
use vstd::prelude::*;

use crate::arrangement::{lemma_share, lemma_sine};
use crate::boolean_ops::{children_program, fillable, program, rings_of, whole_program, StepView};
use crate::fixed::{quotient, sine_units, Fixed};
use crate::geometry::{Pos2, Rect};
use crate::model::{CornerRadii, Frame, KindView, LayerView};
use crate::plane::{lemma_half, lemma_halved, lemma_quarters, lemma_times_one, lemma_unturned};
use crate::pointing::near_frame;
use crate::scalar::Scalar;
use crate::shapes::{
    ellipse, fitted_radius, on_ellipse, quarter_point, regular_polygon, round_corner, rounded_rect,
    star, step_angle, ELLIPSE_POINTS, ROUND_CORNER_STEPS,
};

verus! {

/// Whether a point lies in a box, its sides included.
pub open spec fn is_inside(p: Pos2<Fixed>, b: Rect<Fixed>) -> bool {
    &&& b.min.x.raw <= p.x.raw <= b.max.x.raw
    &&& b.min.y.raw <= p.y.raw <= b.max.y.raw
}

/// Whether a layer has an outline of its own making, drawn into its frame.
pub open spec fn is_figure(v: LayerView<Fixed>) -> bool {
    match v.kind {
        KindView::Rectangle { .. } | KindView::Oval | KindView::Polygon { .. } => true,
        KindView::Star { inner_ratio, .. } => -65536 <= inner_ratio.raw <= 65536,
        _ => false,
    }
}

/// The outline of a shape, one ring without holes.
pub open spec fn outline(v: LayerView<Fixed>) -> Seq<Pos2<Fixed>> {
    rings_of(v)[0].exterior
}

/// The outline of an upright shape lies in its frame, and that of a turned one is what the turn about
/// the middle of the frame makes of it.
pub proof fn law_shapes_stay_in_their_frame(v: LayerView<Fixed>, i: int)
    requires
        near_frame(v.frame),
        is_figure(v),
        0 <= i < outline(v).len(),
    ensures
        rings_of(v).len() == 1,
        rings_of(v)[0].holes.len() == 0,
        ({
            let w = v.with_frame(Frame { rotation: Fixed { raw: 0 }, ..v.frame });
            let b = v.frame.spec_bounds();
            &&& outline(w).len() == outline(v).len()
            &&& is_inside(outline(w)[i], b)
            &&& outline(v)[i] == outline(w)[i].spec_rotated(b.spec_center(), v.frame.rotation)
            &&& v.frame.rotation.raw == 0 ==> is_inside(outline(v)[i], b)
        }),
{
    let b = v.frame.spec_bounds();
    let c = b.spec_center();
    let rx = b.spec_width().spec_over(Fixed::spec_ratio(2, 1));
    let ry = b.spec_height().spec_over(Fixed::spec_ratio(2, 1));
    lemma_halves(v.frame);
    let p = match v.kind {
        KindView::Rectangle { corner_radius } => {
            lemma_rounded_inside(b, corner_radius, i);
            rounded_rect(b, corner_radius)[i]
        },
        KindView::Oval => {
            lemma_on_ellipse(c, rx, ry, step_angle(0, i, ELLIPSE_POINTS as int));
            ellipse(c, rx, ry)[i]
        },
        KindView::Star { points, inner_ratio } => {
            let angle = step_angle(-90, i, 2 * points);
            lemma_on_ellipse(c, rx, ry, angle);
            lemma_part(rx, inner_ratio);
            lemma_part(ry, inner_ratio);
            lemma_on_ellipse(c, rx.spec_times(inner_ratio), ry.spec_times(inner_ratio), angle);
            star(c, rx, ry, points, inner_ratio)[i]
        },
        KindView::Polygon { sides } => {
            lemma_on_ellipse(c, rx, ry, step_angle(-90, i, sides as int));
            regular_polygon(c, rx, ry, sides)[i]
        },
        _ => c,
    };
    assert(is_inside(p, b));
    lemma_unturned(p, c);
}

/// Half of a frame on either side of its middle.
proof fn lemma_halves(f: Frame<Fixed>)
    requires
        near_frame(f),
    ensures
        ({
            let b = f.spec_bounds();
            let c = b.spec_center();
            let rx = b.spec_width().spec_over(Fixed::spec_ratio(2, 1)).raw;
            let ry = b.spec_height().spec_over(Fixed::spec_ratio(2, 1)).raw;
            &&& 0 <= rx <= 0x1000_0000 && 0 <= ry <= 0x1000_0000
            &&& c.x.raw - rx == b.min.x.raw && 0 <= b.max.x.raw - (c.x.raw + rx) <= 1
            &&& c.y.raw - ry == b.min.y.raw && 0 <= b.max.y.raw - (c.y.raw + ry) <= 1
            &&& -0x2000_0000 <= b.min.x.raw && b.max.x.raw <= 0x2000_0000
            &&& -0x2000_0000 <= b.min.y.raw && b.max.y.raw <= 0x2000_0000
        }),
{
    let b = f.spec_bounds();
    lemma_halved(b.min.x, b.max.x);
    lemma_halved(b.min.y, b.max.y);
    lemma_half(b.spec_width());
    lemma_half(b.spec_height());
}

/// A point of an ellipse is no farther from its middle than the ellipse reaches.
proof fn lemma_on_ellipse(c: Pos2<Fixed>, rx: Fixed, ry: Fixed, degrees: Fixed)
    requires
        -0x2000_0000 <= c.x.raw <= 0x2000_0000,
        -0x2000_0000 <= c.y.raw <= 0x2000_0000,
        -0x1000_0000 <= rx.raw <= 0x1000_0000,
        -0x1000_0000 <= ry.raw <= 0x1000_0000,
    ensures
        ({
            let p = on_ellipse(c, rx, ry, degrees);
            let ax = rx.spec_magnitude().raw;
            let ay = ry.spec_magnitude().raw;
            &&& c.x.raw - ax <= p.x.raw <= c.x.raw + ax
            &&& c.y.raw - ay <= p.y.raw <= c.y.raw + ay
        }),
{
    lemma_sine(degrees.raw as int);
    lemma_sine(degrees.raw + 5898240);
    let s = degrees.spec_sin_deg().raw as int;
    let k = degrees.spec_cos_deg().raw as int;
    let ax = rx.spec_magnitude().raw as int;
    let ay = ry.spec_magnitude().raw as int;
    lemma_share(rx.raw as int, k, ax);
    lemma_share(ry.raw as int, s, ay);
    assert(rx.spec_times(degrees.spec_cos_deg()).raw == quotient(rx.raw * k, 65536));
    assert(ry.spec_times(degrees.spec_sin_deg()).raw == quotient(ry.raw * s, 65536));
}

/// A part of a length is no longer than the length.
proof fn lemma_part(r: Fixed, ratio: Fixed)
    requires
        0 <= r.raw <= 0x1000_0000,
        -65536 <= ratio.raw <= 65536,
    ensures
        -r.raw <= r.spec_times(ratio).raw <= r.raw,
{
    lemma_share(r.raw as int, ratio.raw as int, r.raw as int);
}

/// How far a corner is rounded: as told, but not less than nothing and not past the middle of a side.
pub proof fn law_corners_are_rounded_as_far_as_they_can(r: Fixed, b: Rect<Fixed>)
    requires
        0 <= b.max.x.raw - b.min.x.raw <= 0x2000_0000,
        0 <= b.max.y.raw - b.min.y.raw <= 0x2000_0000,
    ensures
        ({
            let q = fitted_radius(r, b).raw;
            let w = b.max.x.raw - b.min.x.raw;
            let h = b.max.y.raw - b.min.y.raw;
            &&& 0 <= q && 2 * q <= w && 2 * q <= h
            &&& r.raw <= 0 ==> q == 0
            &&& 0 <= 2 * r.raw <= w && 2 * r.raw <= h ==> q == r.raw
            &&& 2 * r.raw > w || 2 * r.raw > h ==> 2 * q >= w - 1 || 2 * q >= h - 1
        }),
{
    lemma_half(b.spec_width());
    lemma_half(b.spec_height());
}

proof fn lemma_rounded_inside(b: Rect<Fixed>, radii: CornerRadii<Fixed>, i: int)
    requires
        -0x2000_0000 <= b.min.x.raw <= b.max.x.raw <= 0x2000_0000,
        -0x2000_0000 <= b.min.y.raw <= b.max.y.raw <= 0x2000_0000,
        b.max.x.raw - b.min.x.raw <= 0x1000_0000,
        b.max.y.raw - b.min.y.raw <= 0x1000_0000,
        0 <= i < rounded_rect(b, radii).len(),
    ensures
        is_inside(rounded_rect(b, radii)[i], b),
{
    let tl = fitted_radius(radii.top_left, b);
    let tr = fitted_radius(radii.top_right, b);
    let br = fitted_radius(radii.bottom_right, b);
    let bl = fitted_radius(radii.bottom_left, b);
    law_corners_are_rounded_as_far_as_they_can(radii.top_left, b);
    law_corners_are_rounded_as_far_as_they_can(radii.top_right, b);
    law_corners_are_rounded_as_far_as_they_can(radii.bottom_right, b);
    law_corners_are_rounded_as_far_as_they_can(radii.bottom_left, b);
    let a = round_corner(
        b.min,
        Pos2 { x: b.min.x.spec_plus(tl), y: b.min.y.spec_plus(tl) },
        tl,
        2,
    );
    let c = round_corner(
        Pos2 { x: b.max.x, y: b.min.y },
        Pos2 { x: b.max.x.spec_minus(tr), y: b.min.y.spec_plus(tr) },
        tr,
        3,
    );
    let d = round_corner(
        b.max,
        Pos2 { x: b.max.x.spec_minus(br), y: b.max.y.spec_minus(br) },
        br,
        0,
    );
    let e = round_corner(
        Pos2 { x: b.min.x, y: b.max.y },
        Pos2 { x: b.min.x.spec_plus(bl), y: b.max.y.spec_minus(bl) },
        bl,
        1,
    );
    assert(rounded_rect(b, radii) == a + c + d + e);
    if i < a.len() {
        lemma_corner_inside(b.min, Pos2 { x: b.min.x.spec_plus(tl), y: b.min.y.spec_plus(tl) }, tl, 2, b, i);
    } else if i < a.len() + c.len() {
        lemma_corner_inside(
            Pos2 { x: b.max.x, y: b.min.y },
            Pos2 { x: b.max.x.spec_minus(tr), y: b.min.y.spec_plus(tr) },
            tr,
            3,
            b,
            i - a.len(),
        );
    } else if i < a.len() + c.len() + d.len() {
        lemma_corner_inside(
            b.max,
            Pos2 { x: b.max.x.spec_minus(br), y: b.max.y.spec_minus(br) },
            br,
            0,
            b,
            i - a.len() - c.len(),
        );
    } else {
        lemma_corner_inside(
            Pos2 { x: b.min.x, y: b.max.y },
            Pos2 { x: b.min.x.spec_plus(bl), y: b.max.y.spec_minus(bl) },
            bl,
            1,
            b,
            i - a.len() - c.len() - d.len(),
        );
    }
}

proof fn lemma_corner_inside(
    corner: Pos2<Fixed>,
    center: Pos2<Fixed>,
    radius: Fixed,
    quarter: int,
    b: Rect<Fixed>,
    i: int,
)
    requires
        is_inside(corner, b),
        -0x2000_0000 <= center.x.raw <= 0x2000_0000,
        -0x2000_0000 <= center.y.raw <= 0x2000_0000,
        0 <= radius.raw <= 0x1000_0000,
        b.min.x.raw <= center.x.raw - radius.raw && center.x.raw + radius.raw <= b.max.x.raw,
        b.min.y.raw <= center.y.raw - radius.raw && center.y.raw + radius.raw <= b.max.y.raw,
        0 <= i < round_corner(corner, center, radius, quarter).len(),
    ensures
        is_inside(round_corner(corner, center, radius, quarter)[i], b),
{
    if radius.raw > 0 {
        lemma_on_ellipse(
            center,
            radius,
            radius,
            Fixed::spec_ratio(90 * quarter, 1).spec_plus(
                Fixed::spec_ratio(90 * i, ROUND_CORNER_STEPS as int),
            ),
        );
    }
}

/// The points of an ellipse at quarter turns: to the right of its middle, below it, to its left and
/// above it.
proof fn lemma_quarter_points(c: Pos2<Fixed>, rx: Fixed, ry: Fixed)
    requires
        -0x2000_0000 <= c.x.raw <= 0x2000_0000,
        -0x2000_0000 <= c.y.raw <= 0x2000_0000,
        0 <= rx.raw <= 0x1000_0000,
        0 <= ry.raw <= 0x1000_0000,
    ensures
        ({
            let at = |n: i32| on_ellipse(c, rx, ry, Fixed { raw: n });
            &&& at(0).x.raw == c.x.raw + rx.raw && at(0).y == c.y
            &&& at(5898240).x == c.x && at(5898240).y.raw == c.y.raw + ry.raw
            &&& at(11796480).x.raw == c.x.raw - rx.raw && at(11796480).y == c.y
            &&& at(17694720).x == c.x && at(17694720).y.raw == c.y.raw - ry.raw
            &&& at(23592960).x.raw == c.x.raw + rx.raw && at(23592960).y == c.y
        }),
        forall|a: Fixed|
            a.raw == -5898240 ==> (#[trigger] on_ellipse(c, rx, ry, a)).x == c.x && on_ellipse(
                c,
                rx,
                ry,
                a,
            ).y.raw == c.y.raw - ry.raw,
{
    lemma_quarters();
    assert(sine_units(29491200) == 65536) by {
        assert(29491200int % 23592960 == 5898240);
    }
    lemma_times_one(rx);
    lemma_times_one(ry);
}

/// The steps around a circle, where nothing is cut off.
proof fn lemma_step_angle(start: int, k: int, n: int)
    requires
        -90 <= start <= 90,
        0 <= k <= 90,
        0 < n <= 30000,
    ensures
        step_angle::<Fixed>(start, k, n).raw == start * 65536 + (23592960 * k) / n,
{
    assert(Fixed::spec_ratio(360, 1).raw == 23592960);
    assert((k * 65536) / 1 == k * 65536);
    assert((n * 65536) / 1 == n * 65536);
    assert((start * 65536) / 1 == start * 65536);
    let q = 23592960 * k;
    assert((23592960 * (k * 65536)) / 65536 == q);
    assert((q * 65536) / (n * 65536) == q / n && 0 <= q / n <= q) by (nonlinear_arith)
        requires
            q >= 0,
            n > 0,
    ;
}

/// An upright oval touches its frame in the middle of each side: on the right, at the bottom, on the
/// left and at the top, in this order around it.
pub proof fn law_ovals_touch_their_frame(v: LayerView<Fixed>)
    requires
        near_frame(v.frame),
        v.kind is Oval,
        v.frame.rotation.raw == 0,
    ensures
        ({
            let b = v.frame.spec_bounds();
            let c = b.spec_center();
            let o = outline(v);
            &&& o.len() == 64
            &&& 0 <= b.max.x.raw - o[0].x.raw <= 1 && o[0].y == c.y
            &&& o[16].x == c.x && 0 <= b.max.y.raw - o[16].y.raw <= 1
            &&& o[32].x == b.min.x && o[32].y == c.y
            &&& o[48].x == c.x && o[48].y == b.min.y
        }),
{
    let b = v.frame.spec_bounds();
    let c = b.spec_center();
    let rx = b.spec_width().spec_over(Fixed::spec_ratio(2, 1));
    let ry = b.spec_height().spec_over(Fixed::spec_ratio(2, 1));
    lemma_halves(v.frame);
    lemma_quarter_points(c, rx, ry);
    lemma_step_angle(0, 0, 64);
    lemma_step_angle(0, 16, 64);
    lemma_step_angle(0, 32, 64);
    lemma_step_angle(0, 48, 64);
    let e = ellipse(c, rx, ry);
    assert(step_angle::<Fixed>(0, 0, 64) == Fixed { raw: 0 });
    assert(step_angle::<Fixed>(0, 16, 64) == Fixed { raw: 5898240 });
    assert(step_angle::<Fixed>(0, 32, 64) == Fixed { raw: 11796480 });
    assert(step_angle::<Fixed>(0, 48, 64) == Fixed { raw: 17694720 });
    assert(e[0].x.raw == c.x.raw + rx.raw && e[0].y == c.y);
    assert(e[16].x == c.x && e[16].y.raw == c.y.raw + ry.raw);
    assert(e[32].x.raw == c.x.raw - rx.raw && e[32].y == c.y);
    assert(e[48].x == c.x && e[48].y.raw == c.y.raw - ry.raw);
    lemma_unturned(e[0], c);
    lemma_unturned(e[16], c);
    lemma_unturned(e[32], c);
    lemma_unturned(e[48], c);
}

/// Polygons have as many corners as sides and stars twice as many as tips; the first is in the middle
/// of the top of the frame.
pub proof fn law_figures_begin_at_the_top(v: LayerView<Fixed>)
    requires
        near_frame(v.frame),
        v.frame.rotation.raw == 0,
        v.kind matches KindView::Star { points, .. } ==> 0 < points <= 15000,
        v.kind matches KindView::Polygon { sides } ==> 0 < sides <= 30000,
        v.kind is Star || v.kind is Polygon,
    ensures
        v.kind matches KindView::Star { points, .. } ==> outline(v).len() == 2 * points,
        v.kind matches KindView::Polygon { sides } ==> outline(v).len() == sides,
        ({
            let b = v.frame.spec_bounds();
            outline(v)[0].x == b.spec_center().x && outline(v)[0].y == b.min.y
        }),
{
    let b = v.frame.spec_bounds();
    let c = b.spec_center();
    let rx = b.spec_width().spec_over(Fixed::spec_ratio(2, 1));
    let ry = b.spec_height().spec_over(Fixed::spec_ratio(2, 1));
    lemma_halves(v.frame);
    lemma_quarter_points(c, rx, ry);
    let n = match v.kind {
        KindView::Star { points, .. } => 2 * points,
        KindView::Polygon { sides } => sides as int,
        _ => 1,
    };
    lemma_step_angle(-90, 0, n);
    assert(0int / n == 0) by (nonlinear_arith)
        requires
            n > 0,
    ;
    let a = step_angle::<Fixed>(-90, 0, n);
    assert(a.raw == -5898240);
    let p = on_ellipse(c, rx, ry, a);
    assert(p.x == c.x && p.y.raw == c.y.raw - ry.raw);
    lemma_unturned(p, c);
}

/// The tips of a star are the corners of the polygon with as many; its notches are corners too where
/// they are cut to the full radius, and all at the middle where they are cut to none.
pub proof fn law_stars_and_polygons(c: Pos2<Fixed>, rx: Fixed, ry: Fixed, points: u32, ratio: Fixed, k: int)
    requires
        -0x2000_0000 <= c.x.raw <= 0x2000_0000,
        -0x2000_0000 <= c.y.raw <= 0x2000_0000,
        0 <= rx.raw <= 0x1000_0000,
        0 <= ry.raw <= 0x1000_0000,
        0 < points <= 45,
        0 <= k < points,
    ensures
        star(c, rx, ry, points, ratio)[2 * k] == regular_polygon(c, rx, ry, points)[k],
        star(c, rx, ry, points, Fixed::spec_ratio(1, 1)) == regular_polygon(
            c,
            rx,
            ry,
            (2 * points) as u32,
        ),
        star(c, rx, ry, points, Fixed::spec_ratio(0, 1))[2 * k + 1] == c,
{
    lemma_step_angle(-90, 2 * k, 2 * points);
    lemma_step_angle(-90, k, points as int);
    assert((23592960 * (2 * k)) / (2 * points as int) == (23592960 * k) / (points as int))
        by (nonlinear_arith)
        requires
            points > 0,
    ;
    lemma_times_one(rx);
    lemma_times_one(ry);
    assert(Fixed::spec_ratio(1, 1) == Fixed { raw: 65536 });
    assert(Fixed::spec_ratio(0, 1) == Fixed { raw: 0 });
    assert((2 * k) % 2 == 0 && (2 * k + 1) % 2 == 1);
    assert(star(c, rx, ry, points, Fixed::spec_ratio(1, 1)) =~= regular_polygon(
        c,
        rx,
        ry,
        (2 * points) as u32,
    ));
    let z = Fixed { raw: 0 };
    assert forall|a: Fixed| #[trigger] on_ellipse(c, z, z, a) == c by {
        assert(0 * a.spec_cos_deg().raw == 0 && 0 * a.spec_sin_deg().raw == 0);
    }
}

/// A rectangle with sharp corners has four, clockwise from the top left; each round corner is an arc
/// that leaves one side at the radius from the corner and meets the next as far from it.
#[verifier::spinoff_prover]
#[verifier::rlimit(100)]
pub proof fn law_corners_of_rectangles(b: Rect<Fixed>, radii: CornerRadii<Fixed>)
    requires
        -0x2000_0000 <= b.min.x.raw <= b.max.x.raw <= 0x2000_0000,
        -0x2000_0000 <= b.min.y.raw <= b.max.y.raw <= 0x2000_0000,
        b.max.x.raw - b.min.x.raw <= 0x1000_0000,
        b.max.y.raw - b.min.y.raw <= 0x1000_0000,
    ensures
        radii.top_left.raw <= 0 && radii.top_right.raw <= 0 && radii.bottom_right.raw <= 0
            && radii.bottom_left.raw <= 0 ==> rounded_rect(b, radii) == seq![
            b.min,
            (Pos2 { x: b.max.x, y: b.min.y }),
            b.max,
            (Pos2 { x: b.min.x, y: b.max.y }),
        ],
        ({
            let tl = fitted_radius(radii.top_left, b).raw;
            let tr = fitted_radius(radii.top_right, b).raw;
            let br = fitted_radius(radii.bottom_right, b).raw;
            let bl = fitted_radius(radii.bottom_left, b).raw;
            let n = ROUND_CORNER_STEPS as int;
            let p = rounded_rect(b, radii);
            tl > 0 && tr > 0 && br > 0 && bl > 0 ==> {
                &&& p.len() == 4 * (n + 1)
                &&& p[0].x == b.min.x && p[0].y.raw == b.min.y.raw + tl
                &&& p[n].x.raw == b.min.x.raw + tl && p[n].y == b.min.y
                &&& p[n + 1].x.raw == b.max.x.raw - tr && p[n + 1].y == b.min.y
                &&& p[2 * n + 1].x == b.max.x && p[2 * n + 1].y.raw == b.min.y.raw + tr
                &&& p[2 * n + 2].x == b.max.x && p[2 * n + 2].y.raw == b.max.y.raw - br
                &&& p[3 * n + 2].x.raw == b.max.x.raw - br && p[3 * n + 2].y == b.max.y
                &&& p[3 * n + 3].x.raw == b.min.x.raw + bl && p[3 * n + 3].y == b.max.y
                &&& p[4 * n + 3].x == b.min.x && p[4 * n + 3].y.raw == b.max.y.raw - bl
            }
        }),
{
    let tl = fitted_radius(radii.top_left, b);
    let tr = fitted_radius(radii.top_right, b);
    let br = fitted_radius(radii.bottom_right, b);
    let bl = fitted_radius(radii.bottom_left, b);
    law_corners_are_rounded_as_far_as_they_can(radii.top_left, b);
    law_corners_are_rounded_as_far_as_they_can(radii.top_right, b);
    law_corners_are_rounded_as_far_as_they_can(radii.bottom_right, b);
    law_corners_are_rounded_as_far_as_they_can(radii.bottom_left, b);
    let ctl = Pos2 { x: b.min.x.spec_plus(tl), y: b.min.y.spec_plus(tl) };
    let ctr = Pos2 { x: b.max.x.spec_minus(tr), y: b.min.y.spec_plus(tr) };
    let cbr = Pos2 { x: b.max.x.spec_minus(br), y: b.max.y.spec_minus(br) };
    let cbl = Pos2 { x: b.min.x.spec_plus(bl), y: b.max.y.spec_minus(bl) };
    lemma_ring_of_corners(b, radii);
    lemma_arc(ctl, tl);
    lemma_arc(ctr, tr);
    lemma_arc(cbr, br);
    lemma_arc(cbl, bl);
}

/// Where the corners of a rectangle are in its ring.
proof fn lemma_ring_of_corners<S: Scalar>(b: Rect<S>, radii: CornerRadii<S>)
    ensures
        ({
            let tl = fitted_radius(radii.top_left, b);
            let tr = fitted_radius(radii.top_right, b);
            let br = fitted_radius(radii.bottom_right, b);
            let bl = fitted_radius(radii.bottom_left, b);
            let zero = S::spec_ratio(0, 1);
            let n = ROUND_CORNER_STEPS as int;
            let p = rounded_rect(b, radii);
            let ctl = Pos2 { x: b.min.x.spec_plus(tl), y: b.min.y.spec_plus(tl) };
            let ctr = Pos2 { x: b.max.x.spec_minus(tr), y: b.min.y.spec_plus(tr) };
            let cbr = Pos2 { x: b.max.x.spec_minus(br), y: b.max.y.spec_minus(br) };
            let cbl = Pos2 { x: b.min.x.spec_plus(bl), y: b.max.y.spec_minus(bl) };
            &&& tl.spec_le(zero) && tr.spec_le(zero) && br.spec_le(zero) && bl.spec_le(zero)
                ==> p == seq![
                b.min,
                Pos2 { x: b.max.x, y: b.min.y },
                b.max,
                Pos2 { x: b.min.x, y: b.max.y },
            ]
            &&& !tl.spec_le(zero) && !tr.spec_le(zero) && !br.spec_le(zero) && !bl.spec_le(zero)
                ==> {
                &&& p.len() == 4 * (n + 1)
                &&& p[0] == quarter_point(ctl, tl, 2, 0) && p[n] == quarter_point(ctl, tl, 2, n)
                &&& p[n + 1] == quarter_point(ctr, tr, 3, 0)
                &&& p[2 * n + 1] == quarter_point(ctr, tr, 3, n)
                &&& p[2 * n + 2] == quarter_point(cbr, br, 0, 0)
                &&& p[3 * n + 2] == quarter_point(cbr, br, 0, n)
                &&& p[3 * n + 3] == quarter_point(cbl, bl, 1, 0)
                &&& p[4 * n + 3] == quarter_point(cbl, bl, 1, n)
            }
        }),
{
}

/// Where the arcs of round corners begin and end.
proof fn lemma_arc(c: Pos2<Fixed>, r: Fixed)
    requires
        -0x2000_0000 <= c.x.raw <= 0x2000_0000,
        -0x2000_0000 <= c.y.raw <= 0x2000_0000,
        0 <= r.raw <= 0x1000_0000,
    ensures
        ({
            let n = ROUND_CORNER_STEPS as int;
            let right = Pos2 { x: c.x.spec_plus(r), y: c.y };
            let below = Pos2 { x: c.x, y: c.y.spec_plus(r) };
            let left = Pos2 { x: c.x.spec_minus(r), y: c.y };
            let above = Pos2 { x: c.x, y: c.y.spec_minus(r) };
            &&& quarter_point(c, r, 0, 0) == right && quarter_point(c, r, 0, n) == below
            &&& quarter_point(c, r, 1, 0) == below && quarter_point(c, r, 1, n) == left
            &&& quarter_point(c, r, 2, 0) == left && quarter_point(c, r, 2, n) == above
            &&& quarter_point(c, r, 3, 0) == above && quarter_point(c, r, 3, n) == right
        }),
{
    lemma_quarter_points(c, r, r);
    let n = ROUND_CORNER_STEPS as int;
    assert(Fixed::spec_ratio(0, 1) == Fixed { raw: 0 });
    assert(Fixed::spec_ratio(90, 1) == Fixed { raw: 5898240 });
    assert(Fixed::spec_ratio(180, 1) == Fixed { raw: 11796480 });
    assert(Fixed::spec_ratio(270, 1) == Fixed { raw: 17694720 });
    assert(Fixed::spec_ratio(0, n) == Fixed { raw: 0 });
    assert(Fixed::spec_ratio(90 * n, n) == Fixed { raw: 5898240 });
}

/// The rings of stored outlines are where their layer is: an upright path has each point as far from
/// the corner of its frame as it is stored, holes included.
pub proof fn law_stored_outlines_are_in_place(v: LayerView<Fixed>, i: int, j: int, k: int)
    requires
        near_frame(v.frame),
        v.frame.rotation.raw == 0,
        v.kind is CompoundPath,
        0 <= i < v.kind->polygons.len(),
        0 <= j < v.kind->polygons[i].exterior.len(),
        near_offset(v.kind->polygons[i].exterior[j]),
    ensures
        rings_of(v).len() == v.kind->polygons.len(),
        ({
            let p = v.kind->polygons[i];
            let r = rings_of(v)[i];
            &&& r.exterior.len() == p.exterior.len() && r.holes.len() == p.holes.len()
            &&& r.exterior[j].x.raw == v.frame.pos.x.raw + p.exterior[j].x.raw
            &&& r.exterior[j].y.raw == v.frame.pos.y.raw + p.exterior[j].y.raw
            &&& 0 <= k < p.holes.len() ==> r.holes[k].len() == p.holes[k].len()
            &&& 0 <= k < p.holes.len() && 0 <= j < p.holes[k].len() && near_offset(p.holes[k][j])
                ==> r.holes[k][j].x.raw == v.frame.pos.x.raw + p.holes[k][j].x.raw
                && r.holes[k][j].y.raw == v.frame.pos.y.raw + p.holes[k][j].y.raw
        }),
{
    let p = v.kind->polygons[i];
    let c = v.frame.spec_bounds().spec_center();
    let d = v.frame.pos.spec_to_vec2();
    lemma_halves(v.frame);
    assert(v.frame.rotation == Fixed { raw: 0 });
    lemma_unturned(p.exterior[j].spec_plus(d), c);
    if 0 <= k < p.holes.len() && 0 <= j < p.holes[k].len() && near_offset(p.holes[k][j]) {
        lemma_unturned(p.holes[k][j].spec_plus(d), c);
    }
}

/// Whether a stored point is so near that nothing is cut off.
pub open spec fn near_offset(p: Pos2<Fixed>) -> bool {
    &&& -0x1000_0000 <= p.x.raw <= 0x1000_0000
    &&& -0x1000_0000 <= p.y.raw <= 0x1000_0000
}

/// What combining makes of a list: hidden members and those without an area take no part; the first
/// that does is the base, and each one in front joins what is behind it by its own operation.
pub proof fn law_members_join_in_order<S: Scalar>(s: Seq<LayerView<S>>, v: LayerView<S>)
    ensures
        ({
            let before = children_program(s);
            let after = children_program(s.push(v));
            &&& !v.visible || !fillable(v) ==> after == before
            &&& v.visible && fillable(v) && before.len() == 0 ==> after == program(v)
            &&& v.visible && fillable(v) && before.len() > 0 ==> after.len() == before.len()
                + program(v).len() + 1 && after.take(before.len() as int) == before
                && after.subrange(before.len() as int, after.len() - 1) == program(v)
                && after.last() == (StepView::<S>::Combine { op: v.bool_op })
        }),
        whole_program(Seq::<LayerView<S>>::empty()) == seq![StepView::<S>::Nothing],
{
    let t = s.push(v);
    assert(t.drop_last() =~= s);
    let before = children_program(s);
    let after = children_program(t);
    if v.visible && fillable(v) && before.len() > 0 {
        assert(after.take(before.len() as int) =~= before);
        assert(after.subrange(before.len() as int, after.len() - 1) =~= program(v));
    }
}

/// What a boolean group makes is put where the group is and turned as it is, last of all.
pub proof fn law_boolean_groups_are_put_in_place<S: Scalar>(v: LayerView<S>)
    requires
        v.kind is BooleanGroup,
    ensures
        program(v).len() > 0,
        program(v).last() matches StepView::Place { offset, center, degrees } && offset.x
            == v.frame.pos.x && offset.y == v.frame.pos.y && center
            == v.frame.spec_bounds().spec_center() && degrees == v.frame.rotation,
        program(v).drop_last() == whole_program(v.children),
{
    assert(program(v).drop_last() =~= whole_program(v.children));
}

} // verus!
