//! Where pictures, the screen and combined shapes show one and the same shape.
use vstd::prelude::*;

use crate::canvas::CanvasView;
use crate::color::Color32;
use crate::figures::outline;
use crate::fixed::Fixed;
use crate::geometry::{Pos2, Rect, Vec2};
use crate::layer_painting::{radius_pixels, ring_painted, screen_ring, zoomed_radii};
use crate::marks::{pen_lead, Mark, Ruler, Screen};
use crate::model::{CornerRadii, KindView, LayerView, PathPoint};
use crate::outlines::{ring_outline, rounded_outline, OutlineView};
use crate::painting::{edge_piece, flat_fill, PaintworkView, Place};
use crate::plane::{lemma_times_one, lemma_unturned, near, near_box, near_point};
use crate::pointing::near_frame;
use crate::rendering::{drawn_shape, DrawView};
use crate::scalar::Scalar;
use crate::shading::{tile_place, Ground};
use crate::shapes::{regular_polygon, star};
use crate::style::PaintView;
use crate::transform::Remap;
use crate::typesetting::{advance_of, kern_before, width_until, MetricsView, Tagged};

verus! {

/// The outline that the screen shows of a shape that is not magnified is the one that is combined with
/// others.
pub proof fn law_the_screen_shows_the_outline(v: LayerView<Fixed>)
    requires
        v.kind is Rectangle || v.kind is Oval || v.kind is Star || v.kind is Polygon,
        v.kind matches KindView::Rectangle { corner_radius } ==> near(corner_radius.top_left) && near(
            corner_radius.top_right,
        ) && near(corner_radius.bottom_right) && near(corner_radius.bottom_left),
    ensures
        screen_ring(v, v.frame.spec_bounds(), Fixed::spec_ratio(1, 1)) == outline(v),
{
    if let KindView::Rectangle { corner_radius } = v.kind {
        lemma_not_magnified(corner_radius);
    }
}

proof fn lemma_not_magnified(r: CornerRadii<Fixed>)
    requires
        near(r.top_left) && near(r.top_right) && near(r.bottom_right) && near(r.bottom_left),
    ensures
        zoomed_radii(r, Fixed::spec_ratio(1, 1)) == r,
{
    assert(Fixed::spec_ratio(1, 1) == Fixed { raw: 65536 });
    lemma_times_one(r.top_left);
    lemma_times_one(r.top_right);
    lemma_times_one(r.bottom_right);
    lemma_times_one(r.bottom_left);
}

/// The outline that a picture fills of a star or a polygon is the one that is combined with others, before
/// both are turned; an oval fills its box, and a rectangle its box with the corners rounded.
pub proof fn law_pictures_fill_the_outline(v: LayerView<Fixed>, o: Fixed)
    requires
        near_frame(v.frame),
        v.style.fill is Some,
        v.kind is Star || v.kind is Polygon,
        outline(v).len() >= 3,
    ensures
        ({
            let zero = Vec2 { x: Fixed { raw: 0 }, y: Fixed { raw: 0 } };
            let d = drawn_shape(v, zero, o);
            d.len() > 0 && (d[0] matches DrawView::Fill { outline: shown, .. } && Some(shown)
                == ring_outline(raw_ring(v)))
        }),
        forall|i: int|
            0 <= i < outline(v).len() ==> #[trigger] outline(v)[i] == raw_ring(v)[i].spec_rotated(
                v.frame.spec_bounds().spec_center(),
                v.frame.rotation,
            ),
{
    let zero = Vec2 { x: Fixed { raw: 0 }, y: Fixed { raw: 0 } };
    assert(v.frame.spec_bounds().spec_translate(zero) == v.frame.spec_bounds());
}

/// The points of a star or a polygon in an upright frame.
pub open spec fn raw_ring(v: LayerView<Fixed>) -> Seq<Pos2<Fixed>> {
    let b = v.frame.spec_bounds();
    let two = Fixed::spec_ratio(2, 1);
    let rx = b.spec_width().spec_over(two);
    let ry = b.spec_height().spec_over(two);
    match v.kind {
        KindView::Star { points, inner_ratio } => star(b.spec_center(), rx, ry, points, inner_ratio),
        KindView::Polygon { sides } => regular_polygon(b.spec_center(), rx, ry, sides),
        _ => Seq::empty(),
    }
}

/// In a picture an oval and a rectangle fill the box of their frame.
pub proof fn law_pictures_fill_the_box<S: Scalar>(v: LayerView<S>, offset: Vec2<S>, o: S)
    requires
        v.style.fill is Some,
    ensures
        ({
            let b = v.frame.spec_bounds().spec_translate(offset);
            let d = drawn_shape(v, offset, o);
            &&& v.kind is Oval ==> d.len() > 0 && (d[0] matches DrawView::Fill { outline: shown, .. }
                && shown == OutlineView::Oval(b))
            &&& v.kind matches KindView::Rectangle { corner_radius } ==> d.len() > 0 && (
            d[0] matches DrawView::Fill { outline: shown, .. } && shown == rounded_outline(
                b,
                corner_radius,
            ))
        }),
{
}

/// On the screen an upright rectangle of flat colour is a box where its frame is shown, each corner as
/// round as its own radius, in whole pixels.
pub proof fn law_flat_boxes_on_the_screen(v: LayerView<Fixed>, place: Place<Fixed>, o: Fixed, c: Color32)
    requires
        v.frame.rotation.raw == 0,
        v.style.fill == Some(PaintView::<Fixed>::Solid(c)),
        v.style.stroke is None,
        place.zoom.raw == 65536,
        v.kind matches KindView::Rectangle { corner_radius } && 0 <= corner_radius.top_left.raw <= 100
            * 65536 && 0 <= corner_radius.top_right.raw <= 100 * 65536 && 0
            <= corner_radius.bottom_right.raw <= 100 * 65536 && 0 <= corner_radius.bottom_left.raw
            <= 100 * 65536,
    ensures
        ({
            let r = v.kind->corner_radius;
            let d = ring_painted(v, place, o);
            &&& d.len() == 1
            &&& d[0] matches PaintworkView::RoundBox { rect, radii, fill, .. } && rect
                == place.spec_rect(v.frame.spec_bounds()) && fill == flat_fill(v.style, o)
                && is_rounded(radii.0, r.top_left) && is_rounded(radii.1, r.top_right)
                && is_rounded(radii.2, r.bottom_right) && is_rounded(radii.3, r.bottom_left)
        }),
{
    let r = v.kind->corner_radius;
    assert(place.zoom == Fixed::spec_ratio(1, 1));
    lemma_not_magnified(r);
    lemma_radius(r.top_left);
    lemma_radius(r.top_right);
    lemma_radius(r.bottom_right);
    lemma_radius(r.bottom_left);
}

/// Whether a whole number is the nearest to a length.
pub open spec fn is_rounded(n: u8, length: Fixed) -> bool {
    -32768 <= n * 65536 - length.raw <= 32768
}

proof fn lemma_radius(r: Fixed)
    requires
        0 <= r.raw <= 100 * 65536,
    ensures
        is_rounded(radius_pixels(r), r),
{
    let n = r.raw as int;
    let q = (n + 32768) / 65536;
    assert(r.spec_rounded().raw == q * 65536);
    assert((q * 65536) / 65536 == q);
}

/// An edge that is drawn in pieces begins at its first point and ends at its second, and each piece begins
/// where the one before ends.
pub proof fn law_pieces_of_an_edge_meet(
    a: Pos2<Fixed>,
    b: Pos2<Fixed>,
    g: PaintView<Fixed>,
    ground: Ground<Fixed>,
    w: Fixed,
    o: Fixed,
    k: int,
)
    requires
        near_point(a) && near_point(b),
    ensures
        edge_piece(a, b, g, ground, w, o, 0) matches PaintworkView::Segment { a: p, .. } && p == a,
        edge_piece(a, b, g, ground, w, o, 9) matches PaintworkView::Segment { b: q, .. } && q == b,
        edge_piece(a, b, g, ground, w, o, k) matches PaintworkView::Segment { b: q, pen, .. } && (
        edge_piece(a, b, g, ground, w, o, k + 1) matches PaintworkView::Segment { a: p, .. } && p
            == q) && pen.width == w,
{
    let d = b.spec_from(a);
    assert(Fixed::spec_ratio(0, 1) == Fixed { raw: 0 });
    assert(Fixed::spec_ratio(10, 1).raw == 655360);
    assert(0int / 655360 == 0);
    assert(655360int * 65536 / 655360 == 65536);
    assert(Fixed::spec_ratio(0, 1).spec_over(Fixed::spec_ratio(10, 1)) == Fixed { raw: 0 });
    assert(Fixed::spec_ratio(10, 1).spec_over(Fixed::spec_ratio(10, 1)) == Fixed { raw: 65536 });
    lemma_times_one(d.x);
    lemma_times_one(d.y);
}

/// A pattern begins at the corner of its ground, and at the far corner has been laid as often as its tile
/// goes into the size.
pub proof fn law_patterns_begin_at_the_corner(
    tile: Fixed,
    size: Vec2<Fixed>,
    ground: Ground<Fixed>,
)
    requires
        near_box(ground.rect),
        65536 <= ground.rect.max.x.raw - ground.rect.min.x.raw <= 0x1000_0000,
        65536 <= ground.rect.max.y.raw - ground.rect.min.y.raw <= 0x1000_0000,
        near_point(ground.center),
        ground.rotation.raw == 0,
        65536 <= tile.raw <= 0x100_0000,
        0 <= size.x.raw <= 0x1000_0000 && 0 <= size.y.raw <= 0x1000_0000,
    ensures
        tile_place(tile, Fixed::spec_ratio(1, 1), size, ground, ground.rect.min) == (Pos2 {
            x: Fixed { raw: 0 },
            y: Fixed { raw: 0 },
        }),
        tile_place(tile, Fixed::spec_ratio(1, 1), size, ground, ground.rect.max) == (Pos2 {
            x: size.x.spec_over(tile),
            y: size.y.spec_over(tile),
        }),
{
    crate::tints::law_fractions_on_the_ground(ground);
    assert(Fixed::spec_ratio(1, 1) == Fixed { raw: 65536 });
    assert(Fixed::spec_ratio(1, 100).raw == 655);
    lemma_times_one(tile);
    lemma_times_one(size.x);
    lemma_times_one(size.y);
    assert(0 * size.x.raw == 0 && 0 * size.y.raw == 0);
    let t = tile.raw as int;
    assert(0int / t == 0) by (nonlinear_arith)
        requires
            t > 0,
    ;
}

/// The line that leads to the pointer begins at the last point of the pen.
pub proof fn law_the_pen_leads_to_the_pointer<S: Scalar>(
    screen: Screen<S>,
    points: Seq<PathPoint<S>>,
    p: Pos2<S>,
)
    ensures
        pen_lead(screen, points, None).len() == 0,
        points.len() == 0 ==> pen_lead(screen, points, Some(p)).len() == 0,
        points.len() > 0 ==> pen_lead(screen, points, Some(p)).len() == 1 && (pen_lead(
            screen,
            points,
            Some(p),
        )[0] matches Mark::Line { from, to, .. } && from == screen.viewport.spec_to_screen(
            screen.origin,
            points.last().anchor,
        ) && to == p),
{
}

/// A tick of a ruler is at the place that it stands for, and only on its strip; it ends at the canvas, and
/// a labelled one begins farther from it.
pub proof fn law_ticks_stand_for_their_place(ruler: Ruler<Fixed>, i: int)
    requires
        near_box(ruler.strip),
    ensures
        ({
            let v = Fixed::spec_ratio(i, 1).spec_times(ruler.minor);
            let at = ruler.screen.viewport.spec_to_screen(
                ruler.screen.origin,
                (Pos2 {
                    x: if ruler.upright {
                        Fixed { raw: 0 }
                    } else {
                        v
                    },
                    y: if ruler.upright {
                        v
                    } else {
                        Fixed { raw: 0 }
                    },
                }),
            );
            let s = ruler.strip;
            let t = ruler.spec_tick(i);
            let far = if ruler.spec_is_major(v) {
                9 * 65536int
            } else {
                5 * 65536int
            };
            &&& ruler.upright && (at.y.raw < s.min.y.raw || at.y.raw > s.max.y.raw) ==> t.len() == 0
            &&& !ruler.upright && (at.x.raw < s.min.x.raw || at.x.raw > s.max.x.raw) ==> t.len() == 0
            &&& ruler.upright && s.min.y.raw <= at.y.raw <= s.max.y.raw ==> t.len() > 0 && (
            t[0] matches Mark::Line { from, to, .. } && from.y == at.y && to.y == at.y && to.x
                == s.max.x && to.x.raw - from.x.raw == far)
            &&& !ruler.upright && s.min.x.raw <= at.x.raw <= s.max.x.raw ==> t.len() > 0 && (
            t[0] matches Mark::Line { from, to, .. } && from.x == at.x && to.x == at.x && to.y
                == s.max.y && to.y.raw - from.y.raw == far)
            &&& t.len() == 2 ==> ruler.spec_is_major(v) && (t[1] matches Mark::Number { value, .. }
                && value == v)
        }),
{
    assert(Fixed::spec_ratio(0, 1) == Fixed { raw: 0 });
    assert(Fixed::spec_ratio(9, 1).raw == 9 * 65536 && Fixed::spec_ratio(5, 1).raw == 5 * 65536);
}

/// The page is shown beside the rulers, twenty pixels wide, where they are shown; else on all of the
/// canvas.
pub proof fn law_rulers_take_twenty_pixels(c: CanvasView<Fixed>, full: Rect<Fixed>)
    requires
        near_box(full),
    ensures
        !c.show_rulers ==> c.page_area(full) == full,
        c.show_rulers ==> c.page_area(full).max == full.max && c.page_area(full).min.x.raw
            == full.min.x.raw + 20 * 65536 && c.page_area(full).min.y.raw == full.min.y.raw + 20
            * 65536,
{
    assert(Fixed::spec_ratio(20, 1).raw == 20 * 65536);
    assert(Fixed::spec_ratio(0, 1).raw == 0);
}

/// A row is as wide as its characters, their spacing and what is added between them.
pub proof fn law_widths_add_up(
    m: Seq<MetricsView<Fixed>>,
    row: Seq<Tagged>,
    spacing: Fixed,
    k: nat,
)
    requires
        k < row.len(),
        near(width_until(m, row, spacing, k)),
        near(advance_of(m, row, k as int, spacing)),
        kern_before(m, row, k as int) matches Some(v) ==> near(v),
    ensures
        width_until(m, row, spacing, 0).raw == 0,
        width_until(m, row, spacing, k + 1).raw - width_until(m, row, spacing, k).raw == advance_of(
            m,
            row,
            k as int,
            spacing,
        ).raw + (match kern_before(m, row, k as int) {
            Some(v) => v.raw as int,
            None => 0,
        }),
{
}

/// The width of a character is the one in the table of its font; one that is not in it has none.
pub proof fn law_widths_are_looked_up<S: Scalar>(m: MetricsView<S>, i: int, j: int, c: char)
    requires
        0 <= i < m.chars.len(),
        0 <= j < m.chars.len(),
        m.chars.no_duplicates(),
        m.advances.len() == m.chars.len(),
        m.kerns.len() == m.chars.len(),
        m.kerns[i].len() == m.chars.len(),
    ensures
        m.advance(m.chars[i]) == m.advances[i],
        m.kern(m.chars[i], m.chars[j]) == m.kerns[i][j],
        !m.chars.contains(c) ==> m.advance(c) == S::spec_ratio(0, 1),
{
    m.chars.index_of_first_ensures(m.chars[i]);
    m.chars.index_of_first_ensures(m.chars[j]);
    m.chars.index_of_first_ensures(c);
    assert(m.chars.contains(m.chars[i]));
    assert(m.chars.contains(m.chars[j]));
    let a = m.chars.index_of_first(m.chars[i])->0;
    let b = m.chars.index_of_first(m.chars[j])->0;
    assert(m.chars[a] == m.chars[i] && m.chars[b] == m.chars[j]);
}

/// Turning a path turns its handles as much; stretching it stretches them by the factors of both axes. A
/// turn by nothing, and a stretch by one, leave them alone.
pub proof fn law_handles_go_along(
    h: Vec2<Fixed>,
    pivot: Pos2<Fixed>,
    base: Vec2<Fixed>,
    offset: Vec2<Fixed>,
    origin: Pos2<Fixed>,
    from: Pos2<Fixed>,
    to: Pos2<Fixed>,
)
    requires
        near(h.x) && near(h.y),
    ensures
        (Remap::Turn {
            pivot,
            degrees: Fixed { raw: 0 },
            base,
            parent_offset: offset,
            origin,
        }).spec_handle(Some(h)) == Some(h),
        ({
            let map = crate::transform::Rescale {
                old_anchor: from,
                new_anchor: to,
                scale: Vec2 { x: Fixed { raw: 65536 }, y: Fixed { raw: 131072 } },
            };
            (Remap::Stretch { map, from, parent_offset: offset, origin }).spec_handle(
                Some(h),
            ) matches Some(g) && g.x == h.x && g.y.raw == 2 * h.y.raw
        }),
{
    lemma_unturned(Pos2 { x: h.x, y: h.y }, Pos2::spec_zero());
    assert(Fixed::spec_ratio(0, 1).raw == 0);
    lemma_times_one(h.x);
    assert((h.y.raw * 131072) / 65536 == 2 * h.y.raw);
}

} // verus!
