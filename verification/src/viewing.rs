//! The page on the screen: where its points are shown, and how the view is changed.
use vstd::prelude::*;

use crate::canvas::{guide_under, near_guide, CanvasView};
use crate::clicks::wheeled;
use crate::document::{Guide, GuideOrientation};
use crate::fixed::Fixed;
use crate::geometry::{Pos2, Rect, Vec2};
use crate::marks::{
    axis_measure, dash, grid_lines, guide_mark, left_strip, pixel_grid, ruler_pointer, snap_lines,
    top_strip, Ink, Mark, Screen,
};
use crate::painting::Place;
use crate::path_edit::Viewport;
use crate::plane::{near, near_box, near_point};
use crate::scalar::Scalar;

verus! {

/// Whether a view is so that nothing is cut off: the page is not too far away, and is magnified
/// eight times at most.
pub open spec fn is_calm(view: Viewport<Fixed>, origin: Pos2<Fixed>) -> bool {
    &&& 0 < view.zoom.raw <= 8 * 65536
    &&& -0x800_0000 <= view.pan.x.raw <= 0x800_0000
    &&& -0x800_0000 <= view.pan.y.raw <= 0x800_0000
    &&& -0x800_0000 <= origin.x.raw <= 0x800_0000
    &&& -0x800_0000 <= origin.y.raw <= 0x800_0000
}

/// Whether a point of the page is near enough to be magnified eight times.
pub open spec fn is_on_page(p: Pos2<Fixed>) -> bool {
    &&& -0x400_0000 <= p.x.raw <= 0x400_0000
    &&& -0x400_0000 <= p.y.raw <= 0x400_0000
}

/// A point of the page goes to the screen and back to where it was, but for rounding: exactly where the
/// page is shown as large as it is, and within one unit where it is magnified. The corner of the page is
/// shown where the canvas begins, moved by the pan.
pub proof fn law_the_screen_shows_the_page(
    view: Viewport<Fixed>,
    origin: Pos2<Fixed>,
    p: Pos2<Fixed>,
)
    requires
        is_calm(view, origin),
        is_on_page(p),
        view.zoom.raw >= 65536,
    ensures
        ({
            let q = view.spec_to_doc(origin, view.spec_to_screen(origin, p));
            &&& 0 <= p.x.raw - q.x.raw <= 1
            &&& 0 <= p.y.raw - q.y.raw <= 1
            &&& view.zoom.raw == 65536 ==> q == p
            &&& view.spec_to_screen(origin, (Pos2 { x: Fixed { raw: 0 }, y: Fixed { raw: 0 } }))
                == origin.spec_plus(view.pan)
        }),
{
    lemma_there_and_back(p.x, view.zoom);
    lemma_there_and_back(p.y, view.zoom);
    assert(0 * view.zoom.raw == 0);
    if view.zoom.raw == 65536 {
        crate::plane::lemma_times_one(p.x);
        crate::plane::lemma_times_one(p.y);
        assert((p.x.raw * 65536) / 65536 == p.x.raw);
        assert((p.y.raw * 65536) / 65536 == p.y.raw);
    }
}

proof fn lemma_there_and_back(a: Fixed, z: Fixed)
    requires
        65536 <= z.raw <= 8 * 65536,
        -0x400_0000 <= a.raw <= 0x400_0000,
    ensures
        -0x2000_0000 <= a.spec_times(z).raw <= 0x2000_0000,
        0 <= a.raw - a.spec_times(z).spec_over(z).raw <= 1,
{
    let n = a.raw as int;
    let k = z.raw as int;
    let t = (n * k) / 65536;
    assert(-0x2000_0000 <= t <= 0x2000_0000) by (nonlinear_arith)
        requires
            t == (n * k) / 65536,
            65536 <= k <= 524288,
            -0x400_0000 <= n <= 0x400_0000,
    ;
    let q = (t * 65536) / k;
    assert(t * 65536 <= n * k < t * 65536 + 65536);
    assert(q <= n && q >= n - 1) by (nonlinear_arith)
        requires
            q == (t * 65536) / k,
            t * 65536 <= n * k < t * 65536 + 65536,
            k >= 65536,
    ;
}

/// What is to the right on the page is to the right on the screen, as many times farther as the page is
/// magnified, but for rounding; what is below is below.
pub proof fn law_the_screen_magnifies(
    view: Viewport<Fixed>,
    origin: Pos2<Fixed>,
    p: Pos2<Fixed>,
    q: Pos2<Fixed>,
)
    requires
        is_calm(view, origin),
        is_on_page(p),
        is_on_page(q),
    ensures
        ({
            let a = view.spec_to_screen(origin, p);
            let b = view.spec_to_screen(origin, q);
            let z = view.zoom.raw;
            &&& -65536 < (b.x.raw - a.x.raw) * 65536 - (q.x.raw - p.x.raw) * z < 65536
            &&& -65536 < (b.y.raw - a.y.raw) * 65536 - (q.y.raw - p.y.raw) * z < 65536
            &&& p.x == q.x ==> a.x == b.x
            &&& p.y == q.y ==> a.y == b.y
        }),
{
    lemma_magnified(p.x, view.zoom);
    lemma_magnified(p.y, view.zoom);
    lemma_magnified(q.x, view.zoom);
    lemma_magnified(q.y, view.zoom);
    let z = view.zoom.raw as int;
    assert((q.x.raw - p.x.raw) * z == q.x.raw * z - p.x.raw * z) by (nonlinear_arith);
    assert((q.y.raw - p.y.raw) * z == q.y.raw * z - p.y.raw * z) by (nonlinear_arith);
}

proof fn lemma_magnified(a: Fixed, z: Fixed)
    requires
        0 < z.raw <= 8 * 65536,
        -0x400_0000 <= a.raw <= 0x400_0000,
    ensures
        -0x2000_0000 <= a.spec_times(z).raw <= 0x2000_0000,
        0 <= a.raw * z.raw - a.spec_times(z).raw * 65536 < 65536,
{
    let n = a.raw as int;
    let k = z.raw as int;
    let t = (n * k) / 65536;
    assert(-0x2000_0000 <= t <= 0x2000_0000) by (nonlinear_arith)
        requires
            t == (n * k) / 65536,
            0 < k <= 524288,
            -0x400_0000 <= n <= 0x400_0000,
    ;
}

/// A place on the screen shows what is on the page where a view shows it; what is inside of a layer is
/// shown as far from it as it is inside.
pub proof fn law_places_show_what_views_show(place: Place<Fixed>, p: Pos2<Fixed>, pos: Pos2<Fixed>)
    requires
        -0x800_0000 <= p.x.raw <= 0x800_0000 && -0x800_0000 <= p.y.raw <= 0x800_0000,
        -0x800_0000 <= pos.x.raw <= 0x800_0000 && -0x800_0000 <= pos.y.raw <= 0x800_0000,
        -0x800_0000 <= place.offset.x.raw <= 0x800_0000,
        -0x800_0000 <= place.offset.y.raw <= 0x800_0000,
    ensures
        place.offset.x.raw == 0 && place.offset.y.raw == 0 ==> place.spec_at(p) == (Viewport {
            pan: place.pan,
            zoom: place.zoom,
        }).spec_to_screen(place.origin, p),
        place.spec_inside(pos).spec_at(p) == place.spec_at(p.spec_plus(pos.spec_to_vec2())),
        place.spec_inside(pos).zoom == place.zoom,
{
}

/// Turning the wheel moves the page as far as it is turned; pinching magnifies it, between a tenth and
/// eight times, and moves nothing.
pub proof fn law_the_wheel_moves_or_magnifies(
    c: CanvasView<Fixed>,
    scroll: Vec2<Fixed>,
    zoom_delta: Fixed,
)
    requires
        near(c.pan.x) && near(c.pan.y) && near(scroll.x) && near(scroll.y),
    ensures
        ({
            let d = wheeled(c, scroll, zoom_delta);
            &&& d == (CanvasView { pan: d.pan, zoom: d.zoom, ..c })
            &&& zoom_delta.raw == 65536 ==> d.zoom == c.zoom && d.pan.x.raw == c.pan.x.raw
                + scroll.x.raw && d.pan.y.raw == c.pan.y.raw + scroll.y.raw
            &&& zoom_delta.raw != 65536 ==> d.pan == c.pan && 6553 <= d.zoom.raw <= 8 * 65536
            &&& zoom_delta.raw == 131072 && 6553 <= c.zoom.raw <= 4 * 65536 ==> d.zoom.raw == 2
                * c.zoom.raw
        }),
{
    assert(Fixed::spec_ratio(1, 10).raw == 6553);
    assert(Fixed::spec_ratio(8, 1).raw == 524288);
    if zoom_delta.raw == 131072 {
        assert((c.zoom.raw * 131072) / 65536 == 2 * c.zoom.raw);
    }
}

/// The guide under the pointer is the first that is shown within four pixels of it: a level one above or
/// below it, an upright one to its left or right.
pub proof fn law_the_guide_under_the_pointer<S: Scalar>(
    c: CanvasView<S>,
    origin: Pos2<S>,
    guides: Seq<Guide<S>>,
    mouse: Pos2<S>,
    k: int,
    j: int,
)
    requires
        0 <= k <= j < guides.len(),
    ensures
        guide_under(c, origin, guides, mouse, k) matches Some(i) ==> k <= i < guides.len()
            && near_guide(c, origin, guides[i], mouse) && (j < i ==> !near_guide(
            c,
            origin,
            guides[j],
            mouse,
        )),
        guide_under(c, origin, guides, mouse, k) is None ==> !near_guide(
            c,
            origin,
            guides[j],
            mouse,
        ),
    decreases guides.len() - k,
{
    if !near_guide(c, origin, guides[k], mouse) && k + 1 < guides.len() {
        law_the_guide_under_the_pointer(c, origin, guides, mouse, k + 1, if j > k {
            j
        } else {
            k + 1
        });
    }
    if k + 1 == guides.len() {
        assert(guide_under(c, origin, guides, mouse, k + 1) is None);
    }
}

/// How far from a guide the pointer may be: four pixels across from an upright one, whatever its height,
/// and four down from a level one.
pub proof fn law_guides_are_four_pixels_wide(
    c: CanvasView<Fixed>,
    origin: Pos2<Fixed>,
    pos: Fixed,
    mouse: Pos2<Fixed>,
)
    requires
        is_calm(c.viewport(), origin),
        -0x400_0000 <= pos.raw <= 0x400_0000,
        near_point(mouse),
    ensures
        ({
            let at = c.to_screen(origin, (Pos2 { x: pos, y: pos }));
            &&& near_guide(
                c,
                origin,
                (Guide { orientation: GuideOrientation::Vertical, pos }),
                mouse,
            ) <==> -4 * 65536 <= mouse.x.raw - at.x.raw <= 4 * 65536
            &&& near_guide(
                c,
                origin,
                (Guide { orientation: GuideOrientation::Horizontal, pos }),
                mouse,
            ) <==> -4 * 65536 <= mouse.y.raw - at.y.raw <= 4 * 65536
        }),
{
    lemma_magnified(pos, c.zoom);
    lemma_magnified(Fixed { raw: 0 }, c.zoom);
}

/// The mark of a guide or of what attracts: an upright one goes from the top of the canvas to its bottom
/// where its place is shown, a level one from its left to its right.
pub proof fn law_guides_are_drawn_across_the_canvas(screen: Screen<Fixed>, v: Fixed)
    requires
        is_calm(screen.viewport, screen.origin),
        -0x400_0000 <= v.raw <= 0x400_0000,
    ensures
        ({
            let at = screen.viewport.spec_to_screen(screen.origin, (Pos2 { x: v, y: v }));
            let r = screen.canvas_rect;
            let one = Fixed { raw: 65536 };
            &&& guide_mark(screen, GuideOrientation::Vertical, v) == (Mark::Line {
                from: Pos2 { x: at.x, y: r.min.y },
                to: Pos2 { x: at.x, y: r.max.y },
                width: one,
                ink: Ink::Guide,
            })
            &&& guide_mark(screen, GuideOrientation::Horizontal, v) == (Mark::Line {
                from: Pos2 { x: r.min.x, y: at.y },
                to: Pos2 { x: r.max.x, y: at.y },
                width: one,
                ink: Ink::Guide,
            })
            &&& snap_lines(screen, Some(v), None) == seq![
                Mark::Line {
                    from: Pos2 { x: at.x, y: r.min.y },
                    to: Pos2 { x: at.x, y: r.max.y },
                    width: one,
                    ink: Ink::Snap,
                },
            ]
            &&& snap_lines(screen, None, Some(v)) == seq![
                Mark::Line {
                    from: Pos2 { x: r.min.x, y: at.y },
                    to: Pos2 { x: r.max.x, y: at.y },
                    width: one,
                    ink: Ink::Snap,
                },
            ]
        }),
{
    assert(Fixed::spec_ratio(1, 1) == Fixed { raw: 65536 });
}

/// The grid of pixels is shown where the page is magnified four times or more; it has a line for every
/// whole number between its ends.
pub proof fn law_the_grid_has_every_line<S: Scalar>(
    screen: Screen<S>,
    upright: bool,
    first: int,
    end: int,
    i: int,
)
    requires
        first <= end,
        0 <= i < end - first,
    ensures
        grid_lines(screen, upright, first, end).len() == end - first,
        upright ==> grid_lines(screen, upright, first, end)[i] == screen.spec_upright(
            S::spec_ratio(first + i, 1),
            Ink::Grid,
        ),
        !upright ==> grid_lines(screen, upright, first, end)[i] == screen.spec_level(
            S::spec_ratio(first + i, 1),
            Ink::Grid,
        ),
        screen.viewport.zoom.spec_lt(S::spec_ratio(4, 1)) ==> pixel_grid(screen).len() == 0,
    decreases end - first,
{
    if i < end - first - 1 {
        law_the_grid_has_every_line(screen, upright, first, end - 1, i);
    } else if end - first > 1 {
        law_the_grid_has_every_line(screen, upright, first, end - 1, 0);
    } else {
        assert(grid_lines(screen, upright, first, first).len() == 0);
    }
}

/// The strips of the rulers lie along the canvas, one above it and one to its left; the pointer is marked
/// on both where it is over the canvas.
pub proof fn law_rulers_lie_along_the_canvas(full: Rect<Fixed>, canvas: Rect<Fixed>, p: Pos2<Fixed>)
    requires
        near_box(full) && near_box(canvas),
        canvas.min.x.raw <= p.x.raw <= canvas.max.x.raw,
        canvas.min.y.raw <= p.y.raw <= canvas.max.y.raw,
    ensures
        top_strip(full, canvas).min.x == canvas.min.x && top_strip(full, canvas).max.y
            == canvas.min.y && top_strip(full, canvas).min.y == full.min.y && top_strip(
            full,
            canvas,
        ).max.x == full.max.x,
        left_strip(full, canvas).min.y == canvas.min.y && left_strip(full, canvas).max.x
            == canvas.min.x && left_strip(full, canvas).min.x == full.min.x && left_strip(
            full,
            canvas,
        ).max.y == full.max.y,
        ruler_pointer(full, canvas, None).len() == 0,
        ruler_pointer(full, canvas, Some(p)).len() == 2,
        ruler_pointer(full, canvas, Some(p))[0] matches Mark::Line { from, to, .. } && from.x == p.x
            && to.x == p.x && from.y == full.min.y && to.y == canvas.min.y,
        ruler_pointer(full, canvas, Some(p))[1] matches Mark::Line { from, to, .. } && from.y == p.y
            && to.y == p.y && from.x == full.min.x && to.x == canvas.min.x,
{
}

/// What is measured between two boxes is the gap between them, on the axis on which there is one.
pub proof fn law_measures_say_how_far_apart(
    screen: Screen<Fixed>,
    sel: Rect<Fixed>,
    hover: Rect<Fixed>,
)
    requires
        near_box(sel) && near_box(hover),
    ensures
        ({
            let m = axis_measure(screen, sel, hover, false);
            let n = axis_measure(screen, sel, hover, true);
            &&& sel.max.x.raw <= hover.min.x.raw ==> m.len() > 0 && (m.last() matches Mark::Number {
                value,
                ..
            } && value.raw == hover.min.x.raw - sel.max.x.raw)
            &&& hover.max.x.raw <= sel.min.x.raw && hover.min.x.raw < sel.max.x.raw ==> m.len() > 0
                && (m.last() matches Mark::Number { value, .. } && value.raw == sel.min.x.raw
                - hover.max.x.raw)
            &&& sel.min.x.raw < hover.max.x.raw && hover.min.x.raw < sel.max.x.raw ==> m.len() == 0
            &&& sel.max.y.raw <= hover.min.y.raw ==> n.len() > 0 && (n.last() matches Mark::Number {
                value,
                ..
            } && value.raw == hover.min.y.raw - sel.max.y.raw)
            &&& hover.max.y.raw <= sel.min.y.raw && hover.min.y.raw < sel.max.y.raw ==> n.len() > 0
                && (n.last() matches Mark::Number { value, .. } && value.raw == sel.min.y.raw
                - hover.max.y.raw)
            &&& sel.min.y.raw < hover.max.y.raw && hover.min.y.raw < sel.max.y.raw ==> n.len() == 0
        }),
{
}

/// The dashes of a line to the right begin seven apart and are four long, the last as long as there is
/// room.
pub proof fn law_dashes_are_even(a: Pos2<Fixed>, total: Fixed, k: int)
    requires
        near_point(a),
        0 <= k <= 1000,
        7 * k * 65536 < total.raw <= 0x1000_0000,
    ensures
        dash(
            a,
            (Vec2 { x: Fixed { raw: 65536 }, y: Fixed { raw: 0 } }),
            total,
            k,
            Ink::Measure,
        ) matches Mark::Line { from, to, .. } && from.y == a.y && to.y == a.y && from.x.raw
            == a.x.raw + 7 * k * 65536 && to.x.raw == a.x.raw + (if (7 * k + 4) * 65536
            <= total.raw {
            (7 * k + 4) * 65536
        } else {
            total.raw as int
        }),
{
    let t = Fixed::spec_ratio(7 * k, 1);
    assert((7 * k * 65536) / 1 == 7 * k * 65536);
    assert(t.raw == 7 * k * 65536);
    let end = t.spec_plus(Fixed::spec_ratio(4, 1)).spec_lesser(total);
    assert(Fixed::spec_ratio(4, 1).raw == 4 * 65536);
    crate::plane::lemma_times_one(t);
    crate::plane::lemma_times_one(end);
    assert(0 * t.raw == 0 && 0 * end.raw == 0);
}

} // verus!
